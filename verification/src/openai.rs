//! The OpenAI-compatible provider: chat completion requests and their stream.

use crate::anthropic;
use crate::anthropic::{Auth, HttpRequest};
use crate::framing;
use crate::framing::FrameBuffer;
use crate::json;
use crate::json::{Json, JsonObject};
use crate::text;
use crate::types;
use crate::types::{
    CerseiError, CompletionRequest, ContentBlock, MediaSource, Message, MessageContent,
    ProviderCapabilities, ProviderOptions, Role, StopReason, StreamEvent, ToolDefinition, Usage,
};
use crate::wire;
use std::collections::HashMap;
use vstd::prelude::*;
use vstd::string::*;

verus! {

broadcast use vstd::std_specs::hash::group_hash_axioms;

pub const OPENAI_API_BASE: &'static str = "https://api.openai.com/v1";

/// A `data:` URL.
pub open spec fn data_url(media_type: Seq<char>, data: Seq<char>) -> Seq<char> {
    "data:"@ + media_type + ";base64,"@ + data
}

/// A `data:` URL.
fn make_data_url(media_type: &str, data: &str) -> (r: String)
    ensures
        r@ == data_url(media_type@, data@),
{
    let mut s = "data:".to_string();
    s.append(media_type);
    s.append(";base64,");
    s.append(data);
    s
}

/// The URL of an image: a remote one as it is, inline data as a `data:` URL. Media
/// of another type than an image has none.
pub open spec fn image_url(source: types::MediaView) -> Option<Seq<char>> {
    if source.media_type is Some && !("image/"@).is_prefix_of(source.media_type->0) {
        None
    } else if source.url is Some {
        source.url
    } else {
        match source.data {
            Some(data) => Some(
                data_url(
                    match source.media_type {
                        Some(t) => t,
                        None => "image/png"@,
                    },
                    data,
                ),
            ),
            None => None,
        }
    }
}

/// The `image_url.url` text for an image.
pub fn openai_image_url(source: &MediaSource) -> (r: Option<String>)
    ensures
        types::opt_view(r) == image_url(source@),
{
    if let Some(mt) = &source.media_type {
        if !text::starts_with(mt.as_str(), "image/") {
            return None;
        }
    }
    if let Some(url) = &source.url {
        return Some(url.clone());
    }
    match &source.data {
        Some(data) => {
            let url = match &source.media_type {
                Some(mt) => make_data_url(mt.as_str(), data.as_str()),
                None => make_data_url("image/png", data.as_str()),
            };
            Some(url)
        },
        None => None,
    }
}

/// The file part for a document. A document without inline data has none.
pub open spec fn file_part(source: types::MediaView) -> Option<json::JsonView> {
    match source.data {
        Some(data) => Some(
            json::JsonView::Object(
                wire::typed("file"@).insert(
                    "file"@,
                    json::JsonView::Object(
                        wire::nothing().insert(
                            "file_data"@,
                            json::JsonView::Str(
                                data_url(
                                    match source.media_type {
                                        Some(t) => t,
                                        None => "application/pdf"@,
                                    },
                                    data,
                                ),
                            ),
                        ),
                    ),
                ),
            ),
        ),
        None => None,
    }
}

/// A JSON value, or none, by its view.
pub open spec fn json_opt(j: Option<Json>) -> Option<json::JsonView> {
    match j {
        Some(v) => Some(v@),
        None => None,
    }
}

/// The file part for a document.
pub fn openai_file_part(source: &MediaSource) -> (r: Option<Json>)
    ensures
        json_opt(r) == file_part(source@),
{
    match &source.data {
        Some(data) => {
            let url = match &source.media_type {
                Some(mt) => make_data_url(mt.as_str(), data.as_str()),
                None => make_data_url("application/pdf", data.as_str()),
            };
            let mut file = JsonObject::new();
            file.set("file_data", Json::Str(url));
            let mut part = wire::typed_object("file");
            part.set("file", Json::Object(file));
            Some(Json::Object(part))
        },
        None => None,
    }
}

/// A model of the generations that reason.
pub open spec fn reasons(model: Seq<char>) -> bool {
    ("gpt-5"@).is_prefix_of(model) || ("o1"@).is_prefix_of(model) || ("o3"@).is_prefix_of(model)
}

/// Whether a model is of the generations that reason.
pub fn is_reasoning_model(model: &str) -> (r: bool)
    ensures
        r == reasons(model@),
{
    text::starts_with(model, "gpt-5") || text::starts_with(model, "o1") || text::starts_with(
        model,
        "o3",
    )
}

/// The effort that is asked of a model: only models that reason take the option.
pub open spec fn effort_for(
    model: Seq<char>,
    options: Map<Seq<char>, json::JsonView>,
) -> Option<Seq<char>> {
    if reasons(model) && options.contains_key("reasoning_effort"@) {
        options["reasoning_effort"@].as_str()
    } else {
        None
    }
}

/// The `reasoning_effort` of a request.
pub fn reasoning_effort_for(model: &str, options: &ProviderOptions) -> (r: Option<String>)
    ensures
        types::opt_view(r) == effort_for(model@, options@),
{
    if !is_reasoning_model(model) {
        return None;
    }
    options.get_text("reasoning_effort")
}

/// The part of a user message for a block, where it has one.
pub open spec fn part_of(block: types::BlockView) -> Option<json::JsonView> {
    match block {
        types::BlockView::Text { text } => Some(
            json::JsonView::Object(
                wire::typed("text"@).insert("text"@, json::JsonView::Str(text)),
            ),
        ),
        types::BlockView::Image { source } => match image_url(source) {
            Some(url) => Some(
                json::JsonView::Object(
                    wire::typed("image_url"@).insert(
                        "image_url"@,
                        json::JsonView::Object(
                            wire::nothing().insert("url"@, json::JsonView::Str(url)),
                        ),
                    ),
                ),
            ),
            None => None,
        },
        types::BlockView::Document { source, .. } => file_part(source),
        _ => None,
    }
}

/// The parts of a user message.
pub open spec fn parts_of(blocks: Seq<types::BlockView>) -> Seq<json::JsonView>
    decreases blocks.len(),
{
    if blocks.len() == 0 {
        Seq::empty()
    } else {
        match part_of(blocks.last()) {
            Some(p) => parts_of(blocks.drop_last()).push(p),
            None => parts_of(blocks.drop_last()),
        }
    }
}

/// The message of a role with its content.
pub open spec fn said(role: Seq<char>, content: json::JsonView) -> json::JsonView {
    json::JsonView::Object(
        wire::nothing().insert("role"@, json::JsonView::Str(role)).insert("content"@, content),
    )
}

/// The message with a tool's result.
pub open spec fn tool_message(id: Seq<char>, content: types::ResultView) -> json::JsonView {
    json::JsonView::Object(
        wire::nothing().insert("role"@, json::JsonView::Str("tool"@)).insert(
            "tool_call_id"@,
            json::JsonView::Str(id),
        ).insert("content"@, wire::result_json(content)),
    )
}

/// The messages with the results of tools among the blocks.
pub open spec fn tool_messages(blocks: Seq<types::BlockView>) -> Seq<json::JsonView>
    decreases blocks.len(),
{
    if blocks.len() == 0 {
        Seq::empty()
    } else {
        match blocks.last() {
            types::BlockView::ToolResult { tool_use_id, content, .. } => tool_messages(
                blocks.drop_last(),
            ).push(tool_message(tool_use_id, content)),
            _ => tool_messages(blocks.drop_last()),
        }
    }
}

/// The message with the parts that a user said: none without parts, a plain text
/// for a single text part, the list of parts otherwise.
pub open spec fn user_message(parts: Seq<json::JsonView>) -> Seq<json::JsonView> {
    if parts.len() == 0 {
        Seq::empty()
    } else if parts.len() == 1 && parts[0].at("type"@) == json::JsonView::Str("text"@) {
        seq![said("user"@, parts[0].at("text"@))]
    } else {
        seq![said("user"@, json::JsonView::Array(parts))]
    }
}

/// The call of a tool.
pub open spec fn call_json(id: Seq<char>, name: Seq<char>, input: json::JsonView) -> json::JsonView {
    json::JsonView::Object(
        wire::nothing().insert("id"@, json::JsonView::Str(id)).insert(
            "type"@,
            json::JsonView::Str("function"@),
        ).insert(
            "function"@,
            json::JsonView::Object(
                wire::nothing().insert("name"@, json::JsonView::Str(name)).insert(
                    "arguments"@,
                    json::JsonView::Str(json::json_printed(input)),
                ),
            ),
        ),
    )
}

/// The calls of tools among the blocks.
pub open spec fn calls_json(blocks: Seq<types::BlockView>) -> Seq<json::JsonView>
    decreases blocks.len(),
{
    if blocks.len() == 0 {
        Seq::empty()
    } else {
        match blocks.last() {
            types::BlockView::ToolUse { id, name, input } => calls_json(blocks.drop_last()).push(
                call_json(id, name, input),
            ),
            _ => calls_json(blocks.drop_last()),
        }
    }
}

/// The message of the assistant with calls of tools.
pub open spec fn calling(calls: Seq<json::JsonView>, content: Seq<char>) -> json::JsonView {
    let o = wire::nothing().insert("role"@, json::JsonView::Str("assistant"@)).insert(
        "tool_calls"@,
        json::JsonView::Array(calls),
    );
    json::JsonView::Object(
        if content.len() > 0 {
            o.insert("content"@, json::JsonView::Str(content))
        } else {
            o
        },
    )
}

/// The messages that one message of the conversation becomes.
pub open spec fn chat_messages(message: types::MessageView) -> Seq<json::JsonView> {
    match message.role {
        Role::User => match message.content {
            types::ContentView::Blocks(b) => tool_messages(b) + user_message(parts_of(b)),
            types::ContentView::Text(t) => seq![said("user"@, json::JsonView::Str(t))],
        },
        Role::Assistant => match message.content {
            types::ContentView::Blocks(b) => if calls_json(b).len() > 0 {
                seq![calling(calls_json(b), types::blocks_text(b))]
            } else {
                seq![said("assistant"@, json::JsonView::Str(types::blocks_text(b)))]
            },
            types::ContentView::Text(t) => seq![said("assistant"@, json::JsonView::Str(t))],
        },
        Role::System => seq![said("system"@, json::JsonView::Str(message.content.all_text()))],
    }
}

/// The messages that a conversation becomes.
pub open spec fn all_chat_messages(messages: Seq<types::MessageView>) -> Seq<json::JsonView>
    decreases messages.len(),
{
    if messages.len() == 0 {
        Seq::empty()
    } else {
        all_chat_messages(messages.drop_last()) + chat_messages(messages.last())
    }
}

/// The messages of a request, the system prompt first.
pub open spec fn request_messages(request: types::RequestView) -> Seq<json::JsonView> {
    match request.system {
        Some(s) => seq![said("system"@, json::JsonView::Str(s))] + all_chat_messages(
            request.messages,
        ),
        None => all_chat_messages(request.messages),
    }
}

/// One tool of a request.
pub open spec fn function_json(tool: types::ToolView) -> json::JsonView {
    json::JsonView::Object(
        wire::typed("function"@).insert(
            "function"@,
            json::JsonView::Object(
                wire::nothing().insert("name"@, json::JsonView::Str(tool.name)).insert(
                    "description"@,
                    json::JsonView::Str(tool.description),
                ).insert("parameters"@, tool.input_schema),
            ),
        ),
    )
}

/// The tools of a request.
pub open spec fn functions_json(tools: Seq<types::ToolView>) -> Seq<json::JsonView> {
    Seq::new(tools.len(), |i: int| function_json(tools[i]))
}

/// The name under which a model takes the limit of tokens.
pub open spec fn limit_name(model: Seq<char>) -> Seq<char> {
    if reasons(model) {
        "max_completion_tokens"@
    } else {
        "max_tokens"@
    }
}

/// The body of a request to `model`.
pub open spec fn chat_body(model: Seq<char>, request: types::RequestView) -> json::JsonView {
    let o = wire::nothing().insert("model"@, json::JsonView::Str(model)).insert(
        "messages"@,
        json::JsonView::Array(request_messages(request)),
    ).insert(limit_name(model), json::JsonView::UInt(request.max_tokens as u64)).insert(
        "stream"@,
        json::JsonView::Bool(true),
    ).insert(
        "stream_options"@,
        json::JsonView::Object(wire::nothing().insert("include_usage"@, json::JsonView::Bool(true))),
    );
    let o = match request.temperature {
        Some(t) => o.insert("temperature"@, t),
        None => o,
    };
    let o = wire::with_text(o, "reasoning_effort"@, effort_for(model, request.options));
    json::JsonView::Object(
        if request.tools.len() > 0 {
            o.insert("tools"@, json::JsonView::Array(functions_json(request.tools)))
        } else {
            o
        },
    )
}

fn say(role: &str, content: Json) -> (r: Json)
    ensures
        r@ == said(role@, content@),
{
    let mut o = JsonObject::new();
    o.set("role", Json::str(role));
    o.set("content", content);
    Json::Object(o)
}

fn block_part(block: &ContentBlock) -> (r: Option<Json>)
    ensures
        json_opt(r) == part_of(block@),
{
    match block {
        ContentBlock::Text { text } => {
            let mut o = wire::typed_object("text");
            o.set("text", Json::Str(text.clone()));
            Some(Json::Object(o))
        },
        ContentBlock::Image { source } => match openai_image_url(source) {
            Some(url) => {
                let mut inner = JsonObject::new();
                inner.set("url", Json::Str(url));
                let mut o = wire::typed_object("image_url");
                o.set("image_url", Json::Object(inner));
                Some(Json::Object(o))
            },
            None => None,
        },
        ContentBlock::Document { source, .. } => openai_file_part(source),
        _ => None,
    }
}

/// Appends a value to a list.
fn push_item(out: &mut Vec<Json>, j: Json)
    ensures
        json::items_view(final(out)@) == json::items_view(old(out)@).push(j@),
{
    out.push(j);
    assert(out@.drop_last() =~= old(out)@);
}

fn collect_parts(blocks: &Vec<ContentBlock>) -> (r: Vec<Json>)
    ensures
        json::items_view(r@) == parts_of(types::blocks_view(blocks@)),
{
    let mut out: Vec<Json> = Vec::new();
    let mut i: usize = 0;
    let ghost all = types::blocks_view(blocks@);
    proof {
        types::lemma_blocks_view(blocks@);
    }
    assert(all.take(0) =~= Seq::empty());
    while i < blocks.len()
        invariant
            i <= blocks@.len(),
            all.len() == blocks@.len(),
            forall|j: int| 0 <= j < blocks@.len() ==> #[trigger] all[j] == blocks@[j]@,
            json::items_view(out@) == parts_of(all.take(i as int)),
        decreases blocks@.len() - i,
    {
        assert(all.take(i + 1).drop_last() =~= all.take(i as int));
        assert(all.take(i + 1).last() == blocks@[i as int]@);
        if let Some(p) = block_part(&blocks[i]) {
            push_item(&mut out, p);
        }
        i = i + 1;
    }
    assert(all.take(i as int) =~= all);
    out
}

fn push_tool_messages(out: &mut Vec<Json>, blocks: &Vec<ContentBlock>)
    ensures
        json::items_view(final(out)@) == json::items_view(old(out)@) + tool_messages(
            types::blocks_view(blocks@),
        ),
{
    let mut i: usize = 0;
    let ghost all = types::blocks_view(blocks@);
    let ghost start = json::items_view(out@);
    proof {
        types::lemma_blocks_view(blocks@);
    }
    assert(start + tool_messages(all.take(0)) =~= start);
    while i < blocks.len()
        invariant
            i <= blocks@.len(),
            all.len() == blocks@.len(),
            forall|j: int| 0 <= j < blocks@.len() ==> #[trigger] all[j] == blocks@[j]@,
            json::items_view(out@) == start + tool_messages(all.take(i as int)),
        decreases blocks@.len() - i,
    {
        assert(all.take(i + 1).drop_last() =~= all.take(i as int));
        assert(all.take(i + 1).last() == blocks@[i as int]@);
        if let ContentBlock::ToolResult { tool_use_id, content, .. } = &blocks[i] {
            let mut o = JsonObject::new();
            o.set("role", Json::str("tool"));
            o.set("tool_call_id", Json::Str(tool_use_id.clone()));
            o.set("content", wire::result_to_json(content));
            let j = Json::Object(o);
            assert(j@ == tool_message(tool_use_id@, content@));
            push_item(out, j);
            assert(json::items_view(out@) =~= start + tool_messages(all.take(i as int)).push(j@));
        }
        i = i + 1;
    }
    assert(all.take(i as int) =~= all);
}

fn push_user_message(out: &mut Vec<Json>, parts: Vec<Json>)
    ensures
        json::items_view(final(out)@) == json::items_view(old(out)@) + user_message(
            json::items_view(parts@),
        ),
{
    let ghost start = json::items_view(out@);
    let ghost all = json::items_view(parts@);
    proof {
        json::lemma_items_view(parts@);
    }
    if parts.len() == 0 {
        assert(start + user_message(all) =~= start);
        return;
    }
    let single_text = parts.len() == 1 && (match parts[0].str_at("type") {
        Some(t) => text::same(t, "text"),
        None => false,
    });
    assert(single_text == (all.len() == 1 && all[0].at("type"@) == json::JsonView::Str("text"@)));
    let content = if single_text {
        match parts[0].get("text") {
            Some(t) => t.copy(),
            None => Json::Null,
        }
    } else {
        Json::Array(parts)
    };
    let j = say("user", content);
    push_item(out, j);
    assert(json::items_view(out@) =~= start + user_message(all));
}

fn collect_calls(blocks: &Vec<ContentBlock>) -> (r: Vec<Json>)
    ensures
        json::items_view(r@) == calls_json(types::blocks_view(blocks@)),
{
    let mut out: Vec<Json> = Vec::new();
    let mut i: usize = 0;
    let ghost all = types::blocks_view(blocks@);
    proof {
        types::lemma_blocks_view(blocks@);
    }
    assert(all.take(0) =~= Seq::empty());
    while i < blocks.len()
        invariant
            i <= blocks@.len(),
            all.len() == blocks@.len(),
            forall|j: int| 0 <= j < blocks@.len() ==> #[trigger] all[j] == blocks@[j]@,
            json::items_view(out@) == calls_json(all.take(i as int)),
        decreases blocks@.len() - i,
    {
        assert(all.take(i + 1).drop_last() =~= all.take(i as int));
        assert(all.take(i + 1).last() == blocks@[i as int]@);
        if let ContentBlock::ToolUse { id, name, input } = &blocks[i] {
            let mut function = JsonObject::new();
            function.set("name", Json::Str(name.clone()));
            function.set("arguments", Json::Str(json::print(input)));
            let mut o = JsonObject::new();
            o.set("id", Json::Str(id.clone()));
            o.set("type", Json::str("function"));
            o.set("function", Json::Object(function));
            let j = Json::Object(o);
            assert(j@ == call_json(id@, name@, input@));
            push_item(&mut out, j);
        }
        i = i + 1;
    }
    assert(all.take(i as int) =~= all);
    out
}

/// Appends the messages that one message of the conversation becomes.
pub fn push_chat_messages(out: &mut Vec<Json>, message: &Message)
    ensures
        json::items_view(final(out)@) == json::items_view(old(out)@) + chat_messages(message@),
{
    let ghost start = json::items_view(out@);
    match message.role {
        Role::User => match &message.content {
            MessageContent::Blocks(blocks) => {
                push_tool_messages(out, blocks);
                let parts = collect_parts(blocks);
                push_user_message(out, parts);
                assert(json::items_view(out@) =~= start + chat_messages(message@));
            },
            MessageContent::Text(t) => {
                push_item(out, say("user", Json::Str(t.clone())));
                assert(json::items_view(out@) =~= start + chat_messages(message@));
            },
        },
        Role::Assistant => match &message.content {
            MessageContent::Blocks(blocks) => {
                let calls = collect_calls(blocks);
                let content = types::text_of_blocks(blocks);
                proof {
                    json::lemma_items_view(calls@);
                }
                if calls.len() > 0 {
                    let mut o = JsonObject::new();
                    o.set("role", Json::str("assistant"));
                    o.set("tool_calls", Json::Array(calls));
                    if text::chars_of(content.as_str()).len() > 0 {
                        o.set("content", Json::Str(content));
                    }
                    let j = Json::Object(o);
                    assert(j@ == calling(
                        calls_json(types::blocks_view(blocks@)),
                        types::blocks_text(types::blocks_view(blocks@)),
                    ));
                    push_item(out, j);
                } else {
                    push_item(out, say("assistant", Json::Str(content)));
                }
                assert(json::items_view(out@) =~= start + chat_messages(message@));
            },
            MessageContent::Text(t) => {
                push_item(out, say("assistant", Json::Str(t.clone())));
                assert(json::items_view(out@) =~= start + chat_messages(message@));
            },
        },
        Role::System => {
            push_item(out, say("system", Json::Str(message.get_all_text())));
            assert(json::items_view(out@) =~= start + chat_messages(message@));
        },
    }
}

fn collect_messages(request: &CompletionRequest) -> (r: Vec<Json>)
    ensures
        json::items_view(r@) == request_messages(request@),
{
    let mut out: Vec<Json> = Vec::new();
    let ghost start: Seq<json::JsonView> = match request@.system {
        Some(s) => seq![said("system"@, json::JsonView::Str(s))],
        None => Seq::empty(),
    };
    if let Some(system) = &request.system {
        push_item(&mut out, say("system", Json::Str(system.clone())));
    }
    assert(json::items_view(out@) =~= start);
    let mut i: usize = 0;
    let ghost all = types::messages_view(request.messages@);
    assert(start + all_chat_messages(all.take(0)) =~= start);
    while i < request.messages.len()
        invariant
            i <= request.messages@.len(),
            all == types::messages_view(request.messages@),
            json::items_view(out@) == start + all_chat_messages(all.take(i as int)),
        decreases request.messages@.len() - i,
    {
        assert(all.take(i + 1).drop_last() =~= all.take(i as int));
        assert(all.take(i + 1).last() == request.messages@[i as int]@);
        push_chat_messages(&mut out, &request.messages[i]);
        assert(json::items_view(out@) =~= start + (all_chat_messages(all.take(i as int))
            + chat_messages(request.messages@[i as int]@)));
        i = i + 1;
    }
    assert(all.take(i as int) =~= all);
    assert(start + all_chat_messages(all) =~= request_messages(request@));
    out
}

fn functions_to_json(tools: &Vec<ToolDefinition>) -> (r: Vec<Json>)
    ensures
        json::items_view(r@) == functions_json(types::tools_view(tools@)),
{
    let mut out: Vec<Json> = Vec::new();
    let mut i: usize = 0;
    while i < tools.len()
        invariant
            i <= tools@.len(),
            out@.len() == i,
            forall|j: int| 0 <= j < i ==> #[trigger] out@[j]@ == function_json(tools@[j]@),
        decreases tools@.len() - i,
    {
        let t = &tools[i];
        let mut f = JsonObject::new();
        f.set("name", Json::Str(t.name.clone()));
        f.set("description", Json::Str(t.description.clone()));
        f.set("parameters", t.input_schema.copy());
        let mut o = wire::typed_object("function");
        o.set("function", Json::Object(f));
        out.push(Json::Object(o));
        i = i + 1;
    }
    proof {
        json::lemma_items_view(out@);
        assert(json::items_view(out@) =~= functions_json(types::tools_view(tools@)));
    }
    out
}

/// Builds the body of a request to `model`.
pub fn build_chat_body(model: &str, request: &CompletionRequest) -> (r: Json)
    ensures
        r@ == chat_body(model@, request@),
{
    let mut o = JsonObject::new();
    o.set("model", Json::str(model));
    o.set("messages", Json::Array(collect_messages(request)));
    if is_reasoning_model(model) {
        o.set("max_completion_tokens", Json::UInt(request.max_tokens as u64));
    } else {
        o.set("max_tokens", Json::UInt(request.max_tokens as u64));
    }
    o.set("stream", Json::Bool(true));
    let mut stream_options = JsonObject::new();
    stream_options.set("include_usage", Json::Bool(true));
    o.set("stream_options", Json::Object(stream_options));
    if let Some(t) = &request.temperature {
        o.set("temperature", t.copy());
    }
    if let Some(effort) = reasoning_effort_for(model, &request.options) {
        o.set("reasoning_effort", Json::Str(effort));
    }
    if request.tools.len() > 0 {
        o.set("tools", Json::Array(functions_to_json(&request.tools)));
    }
    Json::Object(o)
}

/// A call of a tool as its pieces come in.
#[derive(Clone, Debug, PartialEq, Eq)]
pub struct ToolCallParts {
    pub id: String,
    pub name: String,
    pub arguments: String,
}

#[verifier::ext_equal]
pub ghost struct CallView {
    pub id: Seq<char>,
    pub name: Seq<char>,
    pub arguments: Seq<char>,
}

impl View for ToolCallParts {
    type V = CallView;

    open spec fn view(&self) -> CallView {
        CallView { id: self.id@, name: self.name@, arguments: self.arguments@ }
    }
}

/// The reader of a chat completion stream.
pub struct ChatReader {
    pub buffer: FrameBuffer,
    pub text_started: bool,
    pub tool_calls: HashMap<usize, ToolCallParts>,
    pub has_tool_calls: bool,
    pub done: bool,
}

/// What the reader knows, apart from the text that waits for the end of its line.
#[verifier::ext_equal]
pub ghost struct ChatState {
    pub text_started: bool,
    pub calls: Map<usize, CallView>,
    pub has_tool_calls: bool,
    pub done: bool,
}

/// The calls that a map of pieces holds.
pub open spec fn calls_view(m: Map<usize, ToolCallParts>) -> Map<usize, CallView> {
    m.map_values(|c: ToolCallParts| c@)
}

impl View for ChatReader {
    type V = ChatState;

    open spec fn view(&self) -> ChatState {
        ChatState {
            text_started: self.text_started,
            calls: calls_view(self.tool_calls@),
            has_tool_calls: self.has_tool_calls,
            done: self.done,
        }
    }
}

/// The call that the pieces so far make, or an empty one.
pub open spec fn call_at(calls: Map<usize, CallView>, index: usize) -> CallView {
    if calls.contains_key(index) {
        calls[index]
    } else {
        CallView { id: Seq::empty(), name: Seq::empty(), arguments: Seq::empty() }
    }
}

/// The calls with one more piece: an id and a name replace what was there,
/// arguments are appended.
pub open spec fn with_piece(calls: Map<usize, CallView>, piece: json::JsonView) -> Map<
    usize,
    CallView,
> {
    let index = piece.at("index"@).u64_or_zero() as usize;
    let call = call_at(calls, index);
    calls.insert(
        index,
        CallView {
            id: piece.at("id"@).str_or(call.id),
            name: piece.at("function"@).at("name"@).str_or(call.name),
            arguments: call.arguments + piece.at("function"@).at("arguments"@).str_or(Seq::empty()),
        },
    )
}

/// The calls with more pieces.
pub open spec fn with_pieces(
    calls: Map<usize, CallView>,
    pieces: Seq<json::JsonView>,
) -> Map<usize, CallView>
    decreases pieces.len(),
{
    if pieces.len() == 0 {
        calls
    } else {
        with_piece(with_pieces(calls, pieces.drop_last()), pieces.last())
    }
}

/// The stop reason of a finish reason.
pub open spec fn finish_of(name: Option<Seq<char>>) -> Option<StopReason> {
    match name {
        Some(s) => if s == "stop"@ {
            Some(StopReason::EndTurn)
        } else if s == "tool_calls"@ {
            Some(StopReason::ToolUse)
        } else if s == "length"@ {
            Some(StopReason::MaxTokens)
        } else {
            None
        },
        None => None,
    }
}

/// The events that the text of a chunk gives.
pub open spec fn text_events(started: bool, content: json::JsonView) -> Seq<types::EventView> {
    match content {
        json::JsonView::Str(t) => {
            let delta = types::EventView::TextDelta { index: 0, text: t };
            if started {
                seq![delta]
            } else {
                seq![
                    types::EventView::ContentBlockStart {
                        index: 0,
                        block_type: "text"@,
                        id: None,
                        name: None,
                    },
                    delta,
                ]
            }
        },
        _ => Seq::empty(),
    }
}

/// The event that the usage of a chunk gives.
pub open spec fn usage_events(
    usage: json::JsonView,
    finish: Option<Seq<char>>,
) -> Seq<types::EventView> {
    if usage is Object {
        seq![
            types::EventView::MessageDelta {
                stop_reason: finish_of(finish),
                usage: Some(
                    Usage {
                        input_tokens: usage.at("prompt_tokens"@).u64_or_zero(),
                        output_tokens: usage.at("completion_tokens"@).u64_or_zero(),
                        total_tokens: 0,
                    },
                ),
            },
        ]
    } else {
        Seq::empty()
    }
}

/// The index of the block of a call. Index 0 is that of the text, so a call
/// stands one further; past the last index it wraps round.
pub open spec fn block_of_call(index: usize) -> usize {
    if index == usize::MAX {
        0
    } else {
        (index + 1) as usize
    }
}

impl ChatState {
    /// The start of a stream.
    pub open spec fn start() -> ChatState {
        ChatState {
            text_started: false,
            calls: Map::empty(),
            has_tool_calls: false,
            done: false,
        }
    }

    /// What a chunk makes of the state.
    pub open spec fn after_chunk(self, chunk: json::JsonView) -> ChatState {
        let delta = chunk.at("choices"@).idx(0).at("delta"@);
        ChatState {
            text_started: self.text_started || delta.at("content"@) is Str,
            calls: match delta.at("tool_calls"@) {
                json::JsonView::Array(pieces) => with_pieces(self.calls, pieces),
                _ => self.calls,
            },
            has_tool_calls: self.has_tool_calls || delta.at("tool_calls"@) is Array,
            done: self.done,
        }
    }

    /// The events that a chunk gives.
    pub open spec fn chunk_events(self, chunk: json::JsonView) -> Seq<types::EventView> {
        let choice = chunk.at("choices"@).idx(0);
        text_events(self.text_started, choice.at("delta"@).at("content"@)) + usage_events(
            chunk.at("usage"@),
            choice.at("finish_reason"@).as_str(),
        )
    }

    /// The events of the calls, in the given order of their indices.
    pub open spec fn call_events(self, order: Seq<usize>) -> Seq<types::EventView>
        decreases order.len(),
    {
        if order.len() == 0 {
            Seq::empty()
        } else {
            let index = order.last();
            let call = self.calls[index];
            let at = block_of_call(index);
            self.call_events(order.drop_last()) + seq![
                types::EventView::ContentBlockStart {
                    index: at,
                    block_type: "tool_use"@,
                    id: Some(call.id),
                    name: Some(call.name),
                },
                types::EventView::InputJsonDelta { index: at, partial_json: call.arguments },
                types::EventView::ContentBlockStop { index: at },
            ]
        }
    }
}

impl ChatState {
    /// The events at the end of the stream: the calls, the end of the text, the
    /// stop reason and the end of the message.
    pub open spec fn final_events(self, order: Seq<usize>) -> Seq<types::EventView> {
        self.call_events(order) + (if self.text_started {
            seq![types::EventView::ContentBlockStop { index: 0 }]
        } else {
            Seq::empty()
        }) + seq![
            types::EventView::MessageDelta {
                stop_reason: Some(
                    if self.has_tool_calls {
                        StopReason::ToolUse
                    } else {
                        StopReason::EndTurn
                    },
                ),
                usage: None,
            },
            types::EventView::MessageStop,
        ]
    }

    /// What the data of a line makes of the state. `order` is that of the calls at
    /// the end of the stream.
    pub open spec fn after_line(self, line: Seq<char>) -> ChatState {
        match text::after_prefix(line, "data: "@) {
            Some(rest) => {
                let data = text::trimmed(rest);
                if data == "[DONE]"@ {
                    ChatState { done: true, ..self }
                } else {
                    match json::json_read(data) {
                        Some(chunk) => self.after_chunk(chunk),
                        None => self,
                    }
                }
            },
            None => self,
        }
    }

    /// The events that a line gives.
    pub open spec fn line_events(self, line: Seq<char>, order: Seq<usize>) -> Seq<types::EventView> {
        match text::after_prefix(line, "data: "@) {
            Some(rest) => {
                let data = text::trimmed(rest);
                if data == "[DONE]"@ {
                    self.final_events(order)
                } else {
                    match json::json_read(data) {
                        Some(chunk) => self.chunk_events(chunk),
                        None => Seq::empty(),
                    }
                }
            },
            None => Seq::empty(),
        }
    }

    /// What a list of lines makes of the state. Nothing after the end counts.
    pub open spec fn after_lines(self, lines: Seq<Seq<char>>) -> ChatState
        decreases lines.len(),
    {
        if lines.len() == 0 {
            self
        } else {
            let before = self.after_lines(lines.drop_last());
            if before.done {
                before
            } else {
                before.after_line(lines.last())
            }
        }
    }

    /// The events that a list of lines gives. Nothing after the end counts.
    pub open spec fn lines_events(self, lines: Seq<Seq<char>>, order: Seq<usize>) -> Seq<
        types::EventView,
    >
        decreases lines.len(),
    {
        if lines.len() == 0 {
            Seq::empty()
        } else {
            let before = self.after_lines(lines.drop_last());
            if before.done {
                self.lines_events(lines.drop_last(), order)
            } else {
                self.lines_events(lines.drop_last(), order) + before.line_events(
                    lines.last(),
                    order,
                )
            }
        }
    }
}

/// `order` names every call once.
pub open spec fn call_order(calls: Map<usize, CallView>, order: Seq<usize>) -> bool {
    order.no_duplicates() && order.to_set() == calls.dom()
}

/// The index of the block of a call.
fn call_block(index: usize) -> (r: usize)
    ensures
        r == block_of_call(index),
{
    if index == usize::MAX {
        0
    } else {
        index + 1
    }
}

/// Appends an event to a list.
fn push_event(out: &mut Vec<StreamEvent>, e: StreamEvent)
    ensures
        types::events_view(final(out)@) == types::events_view(old(out)@).push(e@),
{
    out.push(e);
    assert(types::events_view(out@) =~= types::events_view(old(out)@).push(e@));
}

/// The member `key` of an optional value.
fn member<'a>(v: Option<&'a Json>, key: &str) -> (r: Option<&'a Json>)
    ensures
        seen(r) == seen(v).at(key@),
{
    match v {
        Some(j) => j.get(key),
        None => None,
    }
}

/// The value that is there; null where there is none.
spec fn seen(v: Option<&Json>) -> json::JsonView {
    match v {
        Some(j) => j@,
        None => json::JsonView::Null,
    }
}

/// The text of an optional value.
fn text_in<'a>(v: Option<&'a Json>) -> (r: Option<&'a str>)
    ensures
        match r {
            Some(s) => seen(v) == json::JsonView::Str(s@),
            None => seen(v).as_str() is None,
        },
{
    match v {
        Some(j) => j.as_str(),
        None => None,
    }
}

/// The first choice of a chunk.
fn first_choice(chunk: &Json) -> (r: Option<&Json>)
    ensures
        seen(r) == chunk@.at("choices"@).idx(0),
{
    match chunk.get("choices") {
        Some(c) => c.item(0),
        None => None,
    }
}

/// The count at the member `key`, 0 where it is none.
fn count_at(v: &Json, key: &str) -> (r: u64)
    ensures
        r == v@.at(key@).u64_or_zero(),
{
    match v.u64_at(key) {
        Some(n) => n,
        None => 0,
    }
}

/// The stop reason of a finish reason.
pub fn finish_reason(name: &str) -> (r: Option<StopReason>)
    ensures
        r == finish_of(Some(name@)),
{
    if text::same(name, "stop") {
        Some(StopReason::EndTurn)
    } else if text::same(name, "tool_calls") {
        Some(StopReason::ToolUse)
    } else if text::same(name, "length") {
        Some(StopReason::MaxTokens)
    } else {
        None
    }
}

fn add_piece(calls: &mut HashMap<usize, ToolCallParts>, piece: &Json)
    ensures
        calls_view(final(calls)@) == with_piece(calls_view(old(calls)@), piece@),
{
    let index: usize = count_at(piece, "index") as usize;
    let mut call = match calls.remove(&index) {
        Some(c) => c,
        None => ToolCallParts {
            id: String::new(),
            name: String::new(),
            arguments: String::new(),
        },
    };
    assert(call@ == call_at(calls_view(old(calls)@), index));
    if let Some(id) = piece.str_at("id") {
        call.id = id.to_string();
    }
    let function = piece.get("function");
    if let Some(name) = text_in(member(function, "name")) {
        call.name = name.to_string();
    }
    if let Some(arguments) = text_in(member(function, "arguments")) {
        call.arguments.append(arguments);
    } else {
        assert(call@.arguments + Seq::<char>::empty() =~= call@.arguments);
    }
    calls.insert(index, call);
    assert(calls_view(calls@) =~= with_piece(calls_view(old(calls)@), piece@));
}

fn add_pieces(calls: &mut HashMap<usize, ToolCallParts>, pieces: &Vec<Json>)
    ensures
        calls_view(final(calls)@) == with_pieces(
            calls_view(old(calls)@),
            json::items_view(pieces@),
        ),
{
    let ghost start = calls_view(calls@);
    let ghost all = json::items_view(pieces@);
    proof {
        json::lemma_items_view(pieces@);
    }
    let mut i: usize = 0;
    assert(all.take(0) =~= Seq::empty());
    while i < pieces.len()
        invariant
            i <= pieces@.len(),
            all.len() == pieces@.len(),
            forall|j: int| 0 <= j < pieces@.len() ==> #[trigger] all[j] == pieces@[j]@,
            calls_view(calls@) == with_pieces(start, all.take(i as int)),
        decreases pieces@.len() - i,
    {
        assert(all.take(i + 1).drop_last() =~= all.take(i as int));
        assert(all.take(i + 1).last() == pieces@[i as int]@);
        add_piece(calls, &pieces[i]);
        i = i + 1;
    }
    assert(all.take(i as int) =~= all);
}

impl ChatReader {
    /// A reader at the start of a stream.
    pub fn new() -> (r: ChatReader)
        ensures
            r@ == ChatState::start(),
            r.buffer.pending@ == Seq::<char>::empty(),
    {
        let r = ChatReader {
            buffer: FrameBuffer::new(),
            text_started: false,
            tool_calls: HashMap::new(),
            has_tool_calls: false,
            done: false,
        };
        assert(r@ =~= ChatState::start());
        r
    }

    /// The event at the start of a response.
    pub fn start_event() -> (r: StreamEvent)
        ensures
            r@ == (types::EventView::MessageStart { id: Seq::empty(), model: Seq::empty() }),
    {
        StreamEvent::MessageStart { id: String::new(), model: String::new() }
    }

    /// Takes in a chunk that has been read.
    pub fn chunk(&mut self, chunk: &Json) -> (r: Vec<StreamEvent>)
        ensures
            final(self)@ == old(self)@.after_chunk(chunk@),
            final(self).buffer == old(self).buffer,
            types::events_view(r@) == old(self)@.chunk_events(chunk@),
    {
        let mut out: Vec<StreamEvent> = Vec::new();
        assert(types::events_view(out@) =~= Seq::empty());
        let choice = first_choice(chunk);
        let delta = member(choice, "delta");
        let ghost started = self.text_started;
        if let Some(t) = text_in(member(delta, "content")) {
            if !self.text_started {
                self.text_started = true;
                push_event(
                    &mut out,
                    StreamEvent::ContentBlockStart {
                        index: 0,
                        block_type: "text".to_string(),
                        id: None,
                        name: None,
                    },
                );
            }
            push_event(&mut out, StreamEvent::TextDelta { index: 0, text: t.to_string() });
        }
        let ghost content = seen(delta).at("content"@);
        assert(types::events_view(out@) =~= text_events(started, content));
        if let Some(calls) = member(delta, "tool_calls") {
            if let Some(pieces) = calls.as_array() {
                self.has_tool_calls = true;
                add_pieces(&mut self.tool_calls, pieces);
            }
        }
        if let Some(usage) = chunk.get("usage") {
            if let Json::Object(_) = usage {
                let stop_reason = match text_in(member(choice, "finish_reason")) {
                    Some(name) => finish_reason(name),
                    None => None,
                };
                push_event(
                    &mut out,
                    StreamEvent::MessageDelta {
                        stop_reason,
                        usage: Some(
                            Usage {
                                input_tokens: count_at(usage, "prompt_tokens"),
                                output_tokens: count_at(usage, "completion_tokens"),
                                total_tokens: 0,
                            },
                        ),
                    },
                );
            }
        }
        assert(types::events_view(out@) =~= old(self)@.chunk_events(chunk@));
        out
    }

    /// The indices of the calls, in the order in which the map of them is walked.
    pub fn walk_order(&self) -> (r: Vec<usize>)
        ensures
            call_order(self@.calls, r@),
    {
        let mut order: Vec<usize> = Vec::new();
        let ghost m = self.tool_calls@;
        for key in it: self.tool_calls.keys()
            invariant
                m == self.tool_calls@,
                order@.len() == it.index(),
                it.seq().len() == m.dom().len(),
                it.seq().unref().to_set() == m.dom(),
                forall|i: int| 0 <= i < order@.len() ==> order@[i] == *(#[trigger] it.seq()[i]),
                it.index() == it.seq().len() ==> order@ =~= it.seq().unref(),
        {
            order.push(*key);
        }
        proof {
            assert(order@.to_set() =~= m.dom());
            order@.lemma_no_dup_set_cardinality();
            assert(self@.calls.dom() =~= m.dom());
        }
        order
    }

    /// The events at the end of the stream, for a given order of the calls.
    pub fn finish(&self, order: &Vec<usize>) -> (r: Vec<StreamEvent>)
        requires
            call_order(self@.calls, order@),
        ensures
            types::events_view(r@) == self@.final_events(order@),
    {
        let mut out: Vec<StreamEvent> = Vec::new();
        let mut i: usize = 0;
        assert(order@.take(0) =~= Seq::empty());
        assert(types::events_view(out@) =~= Seq::empty());
        while i < order.len()
            invariant
                i <= order@.len(),
                call_order(self@.calls, order@),
                types::events_view(out@) == self@.call_events(order@.take(i as int)),
            decreases order@.len() - i,
        {
            let index = order[i];
            proof {
                assert(order@.to_set().contains(order@[i as int]));
                assert(order@.take(i + 1).drop_last() =~= order@.take(i as int));
                assert(order@.take(i + 1).last() == index);
            }
            let ghost before = types::events_view(out@);
            if let Some(call) = self.tool_calls.get(&index) {
                let at = call_block(index);
                push_event(
                    &mut out,
                    StreamEvent::ContentBlockStart {
                        index: at,
                        block_type: "tool_use".to_string(),
                        id: Some(call.id.clone()),
                        name: Some(call.name.clone()),
                    },
                );
                push_event(
                    &mut out,
                    StreamEvent::InputJsonDelta {
                        index: at,
                        partial_json: call.arguments.clone(),
                    },
                );
                push_event(&mut out, StreamEvent::ContentBlockStop { index: at });
                assert(self@.calls[index] == call@);
            }
            assert(types::events_view(out@) =~= self@.call_events(order@.take(i + 1)));
            i = i + 1;
        }
        assert(order@.take(i as int) =~= order@);
        if self.text_started {
            push_event(&mut out, StreamEvent::ContentBlockStop { index: 0 });
        }
        let stop = if self.has_tool_calls {
            StopReason::ToolUse
        } else {
            StopReason::EndTurn
        };
        push_event(&mut out, StreamEvent::MessageDelta { stop_reason: Some(stop), usage: None });
        push_event(&mut out, StreamEvent::MessageStop);
        assert(types::events_view(out@) =~= self@.final_events(order@));
        out
    }

    /// Takes in one line of the stream.
    pub fn line(&mut self, line: &str) -> (r: Vec<StreamEvent>)
        ensures
            final(self)@ == old(self)@.after_line(line@),
            final(self).buffer == old(self).buffer,
            exists|order: Seq<usize>| #[trigger]
                call_order(final(self)@.calls, order) && types::events_view(r@)
                    == old(self)@.line_events(line@, order),
    {
        match text::strip_prefix(line, "data: ") {
            Some(rest) => {
                let data = text::trim(rest.as_str());
                if text::same(data.as_str(), "[DONE]") {
                    let order = self.walk_order();
                    let out = self.finish(&order);
                    self.done = true;
                    assert(call_order(self@.calls, order@));
                    return out;
                }
                match json::parse(data.as_str()) {
                    Some(chunk) => {
                        let out = self.chunk(&chunk);
                        let order = self.walk_order();
                        assert(call_order(self@.calls, order@));
                        out
                    },
                    None => {
                        let order = self.walk_order();
                        assert(call_order(self@.calls, order@));
                        let out: Vec<StreamEvent> = Vec::new();
                        assert(types::events_view(out@) =~= Seq::empty());
                        out
                    },
                }
            },
            None => {
                let order = self.walk_order();
                assert(call_order(self@.calls, order@));
                let out: Vec<StreamEvent> = Vec::new();
                assert(types::events_view(out@) =~= Seq::empty());
                out
            },
        }
    }
}

/// Until the end of the stream the order of the calls does not show.
proof fn lemma_order_does_not_show(
    state: ChatState,
    lines: Seq<Seq<char>>,
    a: Seq<usize>,
    b: Seq<usize>,
)
    requires
        !state.after_lines(lines).done,
    ensures
        state.lines_events(lines, a) == state.lines_events(lines, b),
    decreases lines.len(),
{
    if lines.len() > 0 {
        let before = state.after_lines(lines.drop_last());
        assert(!before.done);
        lemma_order_does_not_show(state, lines.drop_last(), a, b);
    }
}

/// Nothing after the end of the stream counts.
proof fn lemma_nothing_after_the_end(
    state: ChatState,
    lines: Seq<Seq<char>>,
    n: int,
    order: Seq<usize>,
)
    requires
        0 <= n <= lines.len(),
        state.after_lines(lines.take(n)).done,
    ensures
        state.after_lines(lines) == state.after_lines(lines.take(n)),
        state.lines_events(lines, order) == state.lines_events(lines.take(n), order),
    decreases lines.len(),
{
    if n == lines.len() {
        assert(lines.take(n) =~= lines);
    } else {
        assert(lines.drop_last().take(n) =~= lines.take(n));
        lemma_nothing_after_the_end(state, lines.drop_last(), n, order);
    }
}

impl ChatReader {
    /// Takes in a chunk of text and hands out the events that it completes.
    pub fn feed_text(&mut self, chunk: &str) -> (r: Vec<StreamEvent>)
        ensures
            ({
                let lines = framing::frames(old(self).buffer.pending@ + chunk@, "\n"@);
                &&& final(self)@ == old(self)@.after_lines(lines)
                &&& exists|order: Seq<usize>| #[trigger]
                    call_order(final(self)@.calls, order) && types::events_view(r@)
                        == old(self)@.lines_events(lines, order)
            }),
            final(self).buffer.pending@ == framing::rest(
                old(self).buffer.pending@ + chunk@,
                "\n"@,
            ),
    {
        assert("\n"@.len() == 1) by {
            reveal_strlit("\n");
        }
        let lines = self.buffer.push(chunk, "\n");
        let mut out: Vec<StreamEvent> = Vec::new();
        let mut i: usize = 0;
        let ghost all = text::views(lines@);
        let ghost start = old(self)@;
        let ghost pending = self.buffer.pending@;
        let first_order = self.walk_order();
        let ghost mut order: Seq<usize> = first_order@;
        assert(all.take(0) =~= Seq::empty());
        assert(types::events_view(out@) =~= Seq::empty());
        assert(self@ == start);
        while i < lines.len() && !self.done
            invariant
                i <= lines@.len(),
                all == text::views(lines@),
                self@ == start.after_lines(all.take(i as int)),
                self.buffer.pending@ == pending,
                call_order(self@.calls, order),
                types::events_view(out@) == start.lines_events(all.take(i as int), order),
            decreases lines@.len() - i,
        {
            let ghost head = all.take(i as int);
            let ghost next = all.take(i + 1);
            assert(next.drop_last() =~= head);
            assert(next.last() == lines@[i as int]@);
            let ghost state = self@;
            let mut events = self.line(lines[i].as_str());
            let ghost shown = types::events_view(events@);
            let ghost before = types::events_view(out@);
            proof {
                let fresh = choose|o: Seq<usize>| #[trigger]
                    call_order(self@.calls, o) && shown == state.line_events(
                        lines@[i as int]@,
                        o,
                    );
                lemma_order_does_not_show(start, head, order, fresh);
                order = fresh;
            }
            let ghost gathered = out@;
            let ghost added = events@;
            out.append(&mut events);
            proof {
                assert(out@ =~= gathered + added);
                assert(types::events_view(out@) =~= before + shown);
            }
            i = i + 1;
        }
        proof {
            if i < lines@.len() {
                lemma_nothing_after_the_end(start, all, i as int, order);
            } else {
                assert(all.take(i as int) =~= all);
            }
            assert(call_order(self@.calls, order));
        }
        out
    }

    /// Takes in a chunk of bytes and hands out the events that it completes.
    pub fn feed(&mut self, bytes: &[u8]) -> (r: Vec<StreamEvent>)
        ensures
            ({
                let lines = framing::frames(
                    old(self).buffer.pending@ + text::utf8_lossy(bytes@),
                    "\n"@,
                );
                &&& final(self)@ == old(self)@.after_lines(lines)
                &&& exists|order: Seq<usize>| #[trigger]
                    call_order(final(self)@.calls, order) && types::events_view(r@)
                        == old(self)@.lines_events(lines, order)
            }),
            final(self).buffer.pending@ == framing::rest(
                old(self).buffer.pending@ + text::utf8_lossy(bytes@),
                "\n"@,
            ),
    {
        let chunk = text::from_utf8_lossy(bytes);
        self.feed_text(chunk.as_str())
    }
}

proof fn lemma_lines_concat(
    state: ChatState,
    a: Seq<Seq<char>>,
    b: Seq<Seq<char>>,
    order: Seq<usize>,
)
    ensures
        state.after_lines(a + b) == state.after_lines(a).after_lines(b),
        state.lines_events(a + b, order) == state.lines_events(a, order) + state.after_lines(
            a,
        ).lines_events(b, order),
    decreases b.len(),
{
    if b.len() == 0 {
        assert(a + b =~= a);
        assert(state.lines_events(a, order) + Seq::<types::EventView>::empty()
            =~= state.lines_events(a, order));
    } else {
        lemma_lines_concat(state, a, b.drop_last(), order);
        assert((a + b).drop_last() =~= a + b.drop_last());
        assert((a + b).last() == b.last());
        let mid = state.after_lines(a);
        let before = mid.after_lines(b.drop_last());
        if !before.done {
            assert((state.lines_events(a, order) + mid.lines_events(b.drop_last(), order))
                + before.line_events(b.last(), order) =~= state.lines_events(a, order) + (
            mid.lines_events(b.drop_last(), order) + before.line_events(b.last(), order)));
        }
    }
}

/// The events of a stream do not depend on where its chunks end.
pub proof fn chat_events_ignore_chunk_boundaries(
    state: ChatState,
    pending: Seq<char>,
    chunk: Seq<char>,
    more: Seq<char>,
    order: Seq<usize>,
)
    ensures
        ({
            let whole = framing::frames(pending + chunk + more, "\n"@);
            let first = framing::frames(pending + chunk, "\n"@);
            let second = framing::frames(framing::rest(pending + chunk, "\n"@) + more, "\n"@);
            &&& state.after_lines(whole) == state.after_lines(first).after_lines(second)
            &&& state.lines_events(whole, order) == state.lines_events(first, order)
                + state.after_lines(first).lines_events(second, order)
        }),
{
    reveal_strlit("\n");
    framing::frames_ignore_chunk_boundaries(pending + chunk, more, "\n"@);
    lemma_lines_concat(
        state,
        framing::frames(pending + chunk, "\n"@),
        framing::frames(framing::rest(pending + chunk, "\n"@) + more, "\n"@),
        order,
    );
}

/// The OpenAI-compatible API.
#[derive(Clone, Debug, PartialEq)]
pub struct OpenAi {
    pub auth: Auth,
    pub base_url: String,
    pub default_model: String,
}

/// The size of the context window of a model, in tokens.
pub open spec fn window_of(model: Seq<char>) -> u64 {
    if text::occurs("gpt-5"@, model) {
        1_000_000
    } else if ("o1"@).is_prefix_of(model) || ("o3"@).is_prefix_of(model) {
        200_000
    } else if text::occurs("gpt-4o"@, model) {
        128_000
    } else if text::occurs("gpt-4-turbo"@, model) {
        128_000
    } else if text::occurs("gpt-4"@, model) {
        8_192
    } else if text::occurs("gpt-3.5"@, model) {
        16_385
    } else {
        128_000
    }
}

/// The value of the header that authorises a request.
pub open spec fn bearer_of(auth: Auth) -> Seq<char> {
    match auth {
        Auth::ApiKey(key) => "Bearer "@ + key@,
        Auth::Bearer(key) => "Bearer "@ + key@,
        Auth::OAuth { token, .. } => "Bearer "@ + token.access_token@,
        Auth::Custom => Seq::empty(),
    }
}

impl OpenAi {
    /// The provider with these credentials. `configured_base` is the value of
    /// `OPENAI_BASE_URL`.
    pub fn new(auth: Auth, configured_base: Option<String>) -> (r: OpenAi)
        ensures
            r.auth == auth,
            r.base_url@ == anthropic::base_or(configured_base, OPENAI_API_BASE@),
            r.default_model@ == "gpt-4o"@,
    {
        OpenAi {
            auth,
            base_url: anthropic::choose_base(configured_base, OPENAI_API_BASE),
            default_model: "gpt-4o".to_string(),
        }
    }

    /// The provider with the key of the environment. `key` is the value of
    /// `OPENAI_API_KEY`, `configured_base` that of `OPENAI_BASE_URL`.
    pub fn from_env(key: Option<String>, configured_base: Option<String>) -> (r: Result<
        OpenAi,
        CerseiError,
    >)
        ensures
            match key {
                Some(k) => r matches Ok(a) && a.auth == Auth::ApiKey(k) && a.base_url@
                    == anthropic::base_or(configured_base, OPENAI_API_BASE@) && a.default_model@
                    == "gpt-4o"@,
                None => r matches Err(CerseiError::Auth(m)) && m@ == "OPENAI_API_KEY not set"@,
            },
    {
        match key {
            Some(k) => Ok(OpenAi::new(Auth::ApiKey(k), configured_base)),
            None => Err(CerseiError::Auth("OPENAI_API_KEY not set".to_string())),
        }
    }

    /// A builder without settings.
    pub fn builder() -> (r: OpenAiBuilder)
        ensures
            r == OpenAiBuilder::unset(),
    {
        OpenAiBuilder { api_key: None, base_url: None, model: None }
    }

    /// The name of the provider.
    pub fn name(&self) -> (r: &'static str)
        ensures
            r@ == "openai"@,
    {
        "openai"
    }

    /// The size of the context window of a model, in tokens.
    pub fn context_window(&self, model: &str) -> (r: u64)
        ensures
            r == window_of(model@),
    {
        if text::contains(model, "gpt-5") {
            1_000_000
        } else if text::starts_with(model, "o1") || text::starts_with(model, "o3") {
            200_000
        } else if text::contains(model, "gpt-4o") {
            128_000
        } else if text::contains(model, "gpt-4-turbo") {
            128_000
        } else if text::contains(model, "gpt-4") {
            8_192
        } else if text::contains(model, "gpt-3.5") {
            16_385
        } else {
            128_000
        }
    }

    /// What the provider can do.
    pub fn capabilities(&self, model: &str) -> (r: ProviderCapabilities)
        ensures
            r == (ProviderCapabilities {
                streaming: true,
                tool_use: true,
                vision: true,
                thinking: false,
                system_prompt: true,
                caching: false,
            }),
    {
        ProviderCapabilities {
            streaming: true,
            tool_use: true,
            vision: true,
            thinking: false,
            system_prompt: true,
            caching: false,
        }
    }

    /// The value of the header that authorises a request.
    fn bearer(&self) -> (r: String)
        ensures
            r@ == bearer_of(self.auth),
    {
        match &self.auth {
            Auth::ApiKey(key) => text::cat("Bearer ", key.as_str()),
            Auth::Bearer(key) => text::cat("Bearer ", key.as_str()),
            Auth::OAuth { token, .. } => text::cat("Bearer ", token.access_token.as_str()),
            Auth::Custom => String::new(),
        }
    }

    /// The HTTP request for a completion.
    pub fn plan(&self, request: &CompletionRequest) -> (r: HttpRequest)
        ensures
            r.url@ == self.base_url@ + "/chat/completions"@,
            anthropic::headers_view(r.headers@) == seq![
                ("authorization"@, bearer_of(self.auth)),
                ("content-type"@, "application/json"@),
            ],
            r.body@ == chat_body(
                anthropic::model_for(request.model@, self.default_model@),
                request@,
            ),
    {
        let model = anthropic::choose_model(request.model.as_str(), self.default_model.as_str());
        let body = build_chat_body(model.as_str(), request);
        let mut headers: Vec<(String, String)> = Vec::new();
        headers.push(("authorization".to_string(), self.bearer()));
        headers.push(("content-type".to_string(), "application/json".to_string()));
        assert(anthropic::headers_view(headers@) =~= seq![
            ("authorization"@, bearer_of(self.auth)),
            ("content-type"@, "application/json"@),
        ]);
        HttpRequest { url: text::cat(self.base_url.as_str(), "/chat/completions"), headers, body }
    }
}

/// Settings for an [`OpenAi`] provider.
#[derive(Clone, Debug, PartialEq, Eq)]
pub struct OpenAiBuilder {
    pub api_key: Option<String>,
    pub base_url: Option<String>,
    pub model: Option<String>,
}

impl OpenAiBuilder {
    /// No settings.
    pub open spec fn unset() -> OpenAiBuilder {
        OpenAiBuilder { api_key: None, base_url: None, model: None }
    }

    pub fn api_key(self, key: String) -> (r: OpenAiBuilder)
        ensures
            r == (OpenAiBuilder { api_key: Some(key), ..self }),
    {
        OpenAiBuilder { api_key: Some(key), ..self }
    }

    pub fn base_url(self, url: String) -> (r: OpenAiBuilder)
        ensures
            r == (OpenAiBuilder { base_url: Some(url), ..self }),
    {
        OpenAiBuilder { base_url: Some(url), ..self }
    }

    pub fn model(self, model: String) -> (r: OpenAiBuilder)
        ensures
            r == (OpenAiBuilder { model: Some(model), ..self }),
    {
        OpenAiBuilder { model: Some(model), ..self }
    }

    /// The provider with these settings. It needs a key.
    pub fn build(self) -> (r: Result<OpenAi, CerseiError>)
        ensures
            match self.api_key {
                Some(key) => r matches Ok(a) && a.auth == Auth::ApiKey(key) && a.base_url@
                    == anthropic::setting_or(self.base_url, OPENAI_API_BASE@) && a.default_model@
                    == anthropic::setting_or(self.model, "gpt-4o"@),
                None => r matches Err(CerseiError::Auth(m)) && m@
                    == "No API key provided. Set OPENAI_API_KEY or use .api_key()"@,
            },
    {
        match self.api_key {
            Some(key) => Ok(
                OpenAi {
                    auth: Auth::ApiKey(key),
                    base_url: anthropic::setting(self.base_url, OPENAI_API_BASE),
                    default_model: anthropic::setting(self.model, "gpt-4o"),
                },
            ),
            None => Err(
                CerseiError::Auth(
                    "No API key provided. Set OPENAI_API_KEY or use .api_key()".to_string(),
                ),
            ),
        }
    }
}

impl Default for OpenAiBuilder {
    fn default() -> (r: OpenAiBuilder)
        ensures
            r == OpenAiBuilder::unset(),
    {
        OpenAi::builder()
    }
}

proof fn lemma_message_members()
    ensures
        "role"@ != "content"@,
        "role"@ != "tool_call_id"@,
        "role"@ != "tool_calls"@,
        "role"@ != "type"@,
        "role"@ != "text"@,
        "role"@ != "image_url"@,
        "role"@ != "file"@,
        "role"@ != "id"@,
        "role"@ != "function"@,
        "role"@ != "name"@,
        "role"@ != "arguments"@,
        "role"@ != "description"@,
        "role"@ != "parameters"@,
        "content"@ != "tool_call_id"@,
        "content"@ != "tool_calls"@,
        "content"@ != "type"@,
        "content"@ != "text"@,
        "content"@ != "image_url"@,
        "content"@ != "file"@,
        "content"@ != "id"@,
        "content"@ != "function"@,
        "content"@ != "name"@,
        "content"@ != "arguments"@,
        "content"@ != "description"@,
        "content"@ != "parameters"@,
        "tool_call_id"@ != "tool_calls"@,
        "tool_call_id"@ != "type"@,
        "tool_call_id"@ != "text"@,
        "tool_call_id"@ != "image_url"@,
        "tool_call_id"@ != "file"@,
        "tool_call_id"@ != "id"@,
        "tool_call_id"@ != "function"@,
        "tool_call_id"@ != "name"@,
        "tool_call_id"@ != "arguments"@,
        "tool_call_id"@ != "description"@,
        "tool_call_id"@ != "parameters"@,
        "tool_calls"@ != "type"@,
        "tool_calls"@ != "text"@,
        "tool_calls"@ != "image_url"@,
        "tool_calls"@ != "file"@,
        "tool_calls"@ != "id"@,
        "tool_calls"@ != "function"@,
        "tool_calls"@ != "name"@,
        "tool_calls"@ != "arguments"@,
        "tool_calls"@ != "description"@,
        "tool_calls"@ != "parameters"@,
        "type"@ != "text"@,
        "type"@ != "image_url"@,
        "type"@ != "file"@,
        "type"@ != "id"@,
        "type"@ != "function"@,
        "type"@ != "name"@,
        "type"@ != "arguments"@,
        "type"@ != "description"@,
        "type"@ != "parameters"@,
        "text"@ != "image_url"@,
        "text"@ != "file"@,
        "text"@ != "id"@,
        "text"@ != "function"@,
        "text"@ != "name"@,
        "text"@ != "arguments"@,
        "text"@ != "description"@,
        "text"@ != "parameters"@,
        "image_url"@ != "file"@,
        "image_url"@ != "id"@,
        "image_url"@ != "function"@,
        "image_url"@ != "name"@,
        "image_url"@ != "arguments"@,
        "image_url"@ != "description"@,
        "image_url"@ != "parameters"@,
        "file"@ != "id"@,
        "file"@ != "function"@,
        "file"@ != "name"@,
        "file"@ != "arguments"@,
        "file"@ != "description"@,
        "file"@ != "parameters"@,
        "id"@ != "function"@,
        "id"@ != "name"@,
        "id"@ != "arguments"@,
        "id"@ != "description"@,
        "id"@ != "parameters"@,
        "function"@ != "name"@,
        "function"@ != "arguments"@,
        "function"@ != "description"@,
        "function"@ != "parameters"@,
        "name"@ != "arguments"@,
        "name"@ != "description"@,
        "name"@ != "parameters"@,
        "arguments"@ != "description"@,
        "arguments"@ != "parameters"@,
        "description"@ != "parameters"@,
{
    reveal_strlit("role");
    reveal_strlit("content");
    reveal_strlit("tool_call_id");
    reveal_strlit("tool_calls");
    reveal_strlit("type");
    reveal_strlit("text");
    reveal_strlit("image_url");
    reveal_strlit("file");
    reveal_strlit("id");
    reveal_strlit("function");
    reveal_strlit("name");
    reveal_strlit("arguments");
    reveal_strlit("description");
    reveal_strlit("parameters");
    assert("role"@.len() == 4);
    assert("content"@.len() == 7);
    assert("tool_call_id"@.len() == 12);
    assert("tool_calls"@.len() == 10);
    assert("type"@.len() == 4);
    assert("text"@.len() == 4);
    assert("image_url"@.len() == 9);
    assert("file"@.len() == 4);
    assert("id"@.len() == 2);
    assert("function"@.len() == 8);
    assert("name"@.len() == 4);
    assert("arguments"@.len() == 9);
    assert("description"@.len() == 11);
    assert("parameters"@.len() == 10);
    assert("role"@[0] != "type"@[0]);
    assert("role"@[0] != "text"@[0]);
    assert("role"@[0] != "file"@[0]);
    assert("role"@[0] != "name"@[0]);
    assert("tool_calls"@[0] != "parameters"@[0]);
    assert("type"@[1] != "text"@[1]);
    assert("type"@[0] != "file"@[0]);
    assert("type"@[0] != "name"@[0]);
    assert("text"@[0] != "file"@[0]);
    assert("text"@[0] != "name"@[0]);
    assert("image_url"@[0] != "arguments"@[0]);
    assert("file"@[0] != "name"@[0]);
}

/// A message of the body is of a role and has a content.
pub open spec fn says(message: json::JsonView, role: Seq<char>, content: json::JsonView) -> bool {
    message matches json::JsonView::Object(o) && json::holds(o, "role"@, json::JsonView::Str(role))
        && json::holds(o, "content"@, content)
}

/// A message of the body answers a call of a tool.
pub open spec fn answers(
    message: json::JsonView,
    id: Seq<char>,
    content: types::ResultView,
) -> bool {
    &&& message matches json::JsonView::Object(o)
    &&& json::holds(o, "role"@, json::JsonView::Str("tool"@))
    &&& json::holds(o, "tool_call_id"@, json::JsonView::Str(id))
    &&& json::holds(
        o,
        "content"@,
        match content {
            types::ResultView::Text(t) => json::JsonView::Str(t),
            types::ResultView::Blocks(b) => json::JsonView::Array(
                Seq::new(b.len(), |i: int| wire::block_json(b[i])),
            ),
        },
    )
}

/// The results of tools among blocks.
pub open spec fn results_among(blocks: Seq<types::BlockView>) -> Seq<types::BlockView> {
    blocks.filter(|b: types::BlockView| b is ToolResult)
}

proof fn lemma_results_are_told(blocks: Seq<types::BlockView>)
    ensures
        tool_messages(blocks).len() == results_among(blocks).len(),
        forall|i: int|
            0 <= i < results_among(blocks).len() ==> {
                &&& (#[trigger] results_among(blocks)[i]) is ToolResult
                &&& answers(
                    tool_messages(blocks)[i],
                    results_among(blocks)[i]->tool_use_id,
                    results_among(blocks)[i]->ToolResult_content,
                )
            },
    decreases blocks.len(),
{
    reveal(Seq::filter);
    if blocks.len() > 0 {
        lemma_results_are_told(blocks.drop_last());
        if let types::BlockView::ToolResult { tool_use_id, content, .. } = blocks.last() {
            lemma_message_members();
            if let types::ResultView::Blocks(b) = content {
                wire::blocks_keep_their_places(b);
                assert(wire::blocks_json(b) =~= Seq::new(
                    b.len(),
                    |i: int| wire::block_json(b[i]),
                ));
            }
            assert(answers(tool_message(tool_use_id, content), tool_use_id, content));
        }
    }
}

/// Every result of a tool in a user message is told to the model in a message of its
/// own, in the order of the results and before what the user said: which call it
/// answers, and what came of it. At most one message follows, and it is the user's.
pub proof fn results_of_tools_are_told(blocks: Seq<types::BlockView>, message: types::MessageView)
    requires
        message.role == Role::User,
        message.content == types::ContentView::Blocks(blocks),
    ensures
        ({
            let told = chat_messages(message);
            let results = results_among(blocks);
            &&& results.len() <= told.len() <= results.len() + 1
            &&& forall|i: int|
                0 <= i < results.len() ==> (#[trigger] results[i]) is ToolResult && answers(
                    told[i],
                    results[i]->tool_use_id,
                    results[i]->ToolResult_content,
                )
            &&& told.len() > results.len() ==> (told.last() matches json::JsonView::Object(o)
                && json::holds(o, "role"@, json::JsonView::Str("user"@)))
        }),
{
    lemma_message_members();
    lemma_results_are_told(blocks);
    let told = chat_messages(message);
    let results = results_among(blocks);
    assert forall|i: int| 0 <= i < results.len() implies (#[trigger] results[i]) is ToolResult
        && answers(told[i], results[i]->tool_use_id, results[i]->ToolResult_content) by {
        assert(told[i] == tool_messages(blocks)[i]);
    }
}

/// What a conversation becomes is what its parts become, one after the other.
pub proof fn conversations_are_told_in_order(
    a: Seq<types::MessageView>,
    b: Seq<types::MessageView>,
)
    ensures
        all_chat_messages(a + b) == all_chat_messages(a) + all_chat_messages(b),
    decreases b.len(),
{
    if b.len() == 0 {
        assert(a + b =~= a);
        assert(all_chat_messages(a) + all_chat_messages(b) =~= all_chat_messages(a));
    } else {
        conversations_are_told_in_order(a, b.drop_last());
        assert((a + b).drop_last() =~= a + b.drop_last());
        assert((a + b).last() == b.last());
        assert((all_chat_messages(a) + all_chat_messages(b.drop_last())) + chat_messages(b.last())
            =~= all_chat_messages(a) + (all_chat_messages(b.drop_last()) + chat_messages(
            b.last(),
        )));
    }
}

proof fn lemma_message_is_told(messages: Seq<types::MessageView>, n: int, m: json::JsonView)
    requires
        0 <= n < messages.len(),
        chat_messages(messages[n]).contains(m),
    ensures
        all_chat_messages(messages).contains(m),
{
    let head = messages.take(n);
    let tail = messages.skip(n + 1);
    let one = seq![messages[n]];
    assert(messages =~= head + one + tail);
    conversations_are_told_in_order(head + one, tail);
    conversations_are_told_in_order(head, one);
    assert(one.drop_last() =~= Seq::<types::MessageView>::empty());
    assert(one.last() == messages[n]);
    assert(all_chat_messages(one.drop_last()) == Seq::<json::JsonView>::empty());
    assert(all_chat_messages(one) =~= chat_messages(messages[n]));
    let inner = chat_messages(messages[n]);
    let k = choose|k: int| 0 <= k < inner.len() && inner[k] == m;
    assert(all_chat_messages(messages)[all_chat_messages(head).len() + k] == m);
}

/// Every result in a conversation is answered in the body: there is a message of a tool
/// with the id of the call and what came of it.
pub proof fn every_result_is_in_the_body(
    model: Seq<char>,
    request: types::RequestView,
    n: int,
    blocks: Seq<types::BlockView>,
    k: int,
)
    requires
        0 <= n < request.messages.len(),
        request.messages[n].role == Role::User,
        request.messages[n].content == types::ContentView::Blocks(blocks),
        0 <= k < blocks.len(),
        blocks[k] is ToolResult,
    ensures
        chat_body(model, request) matches json::JsonView::Object(o) && o.contains_key("messages"@)
            && o["messages"@] is Array && exists|i: int|
            0 <= i < o["messages"@]->Array_0.len() && answers(
                #[trigger] o["messages"@]->Array_0[i],
                blocks[k]->tool_use_id,
                blocks[k]->ToolResult_content,
            ),
{
    lemma_body_members();
    let message = request.messages[n];
    results_of_tools_are_told(blocks, message);
    let results = results_among(blocks);
    blocks.lemma_filter_contains(|b: types::BlockView| b is ToolResult, k);
    assert(results.contains(blocks[k]));
    let j = choose|j: int| 0 <= j < results.len() && results[j] == blocks[k];
    let m = chat_messages(message)[j];
    assert(chat_messages(message).contains(m));
    lemma_message_is_told(request.messages, n, m);
    let all = all_chat_messages(request.messages);
    let at = choose|at: int| 0 <= at < all.len() && all[at] == m;
    let sent = request_messages(request);
    let o = chat_body(model, request)->Object_0;
    assert(o["messages"@] == json::JsonView::Array(sent));
    assert(answers(m, blocks[k]->tool_use_id, blocks[k]->ToolResult_content));
    if request.system is Some {
        assert(o["messages"@]->Array_0[at + 1] == m);
    } else {
        assert(o["messages"@]->Array_0[at] == m);
    }
}

proof fn lemma_body_members()
    ensures
        "model"@ != "messages"@,
        "model"@ != "max_tokens"@,
        "model"@ != "max_completion_tokens"@,
        "model"@ != "stream"@,
        "model"@ != "stream_options"@,
        "model"@ != "temperature"@,
        "model"@ != "reasoning_effort"@,
        "model"@ != "tools"@,
        "messages"@ != "max_tokens"@,
        "messages"@ != "max_completion_tokens"@,
        "messages"@ != "stream"@,
        "messages"@ != "stream_options"@,
        "messages"@ != "temperature"@,
        "messages"@ != "reasoning_effort"@,
        "messages"@ != "tools"@,
        "max_tokens"@ != "max_completion_tokens"@,
        "max_tokens"@ != "stream"@,
        "max_tokens"@ != "stream_options"@,
        "max_tokens"@ != "temperature"@,
        "max_tokens"@ != "reasoning_effort"@,
        "max_tokens"@ != "tools"@,
        "max_completion_tokens"@ != "stream"@,
        "max_completion_tokens"@ != "stream_options"@,
        "max_completion_tokens"@ != "temperature"@,
        "max_completion_tokens"@ != "reasoning_effort"@,
        "max_completion_tokens"@ != "tools"@,
        "stream"@ != "stream_options"@,
        "stream"@ != "temperature"@,
        "stream"@ != "reasoning_effort"@,
        "stream"@ != "tools"@,
        "stream_options"@ != "temperature"@,
        "stream_options"@ != "reasoning_effort"@,
        "stream_options"@ != "tools"@,
        "temperature"@ != "reasoning_effort"@,
        "temperature"@ != "tools"@,
        "reasoning_effort"@ != "tools"@,
{
    reveal_strlit("model");
    reveal_strlit("messages");
    reveal_strlit("max_tokens");
    reveal_strlit("max_completion_tokens");
    reveal_strlit("stream");
    reveal_strlit("stream_options");
    reveal_strlit("temperature");
    reveal_strlit("reasoning_effort");
    reveal_strlit("tools");
    assert("model"@.len() == 5);
    assert("messages"@.len() == 8);
    assert("max_tokens"@.len() == 10);
    assert("max_completion_tokens"@.len() == 21);
    assert("stream"@.len() == 6);
    assert("stream_options"@.len() == 14);
    assert("temperature"@.len() == 11);
    assert("reasoning_effort"@.len() == 16);
    assert("tools"@.len() == 5);
    assert("model"@[0] != "tools"@[0]);
}

/// Whether a block of the user can be said: a text, an image that can be shown, or a
/// document that is at hand.
pub open spec fn sayable(block: types::BlockView) -> bool {
    match block {
        types::BlockView::Text { .. } => true,
        types::BlockView::Image { source } => {
            &&& source.media_type is Some ==> ("image/"@).is_prefix_of(source.media_type->0)
            &&& source.url is Some || source.data is Some
        },
        types::BlockView::Document { source, .. } => source.data is Some,
        _ => false,
    }
}

/// A part of a message says a block.
pub open spec fn says_block(part: json::JsonView, block: types::BlockView) -> bool {
    &&& part is Object
    &&& match block {
        types::BlockView::Text { text } => {
            &&& json::holds(part->Object_0, "type"@, json::JsonView::Str("text"@))
            &&& json::holds(part->Object_0, "text"@, json::JsonView::Str(text))
        },
        types::BlockView::Image { source } => {
            let inner = part->Object_0["image_url"@];
            &&& json::holds(part->Object_0, "type"@, json::JsonView::Str("image_url"@))
            &&& part->Object_0.contains_key("image_url"@) && inner is Object
            &&& inner->Object_0.contains_key("url"@)
            &&& source.url is Some ==> inner->Object_0["url"@] == json::JsonView::Str(
                source.url->0,
            )
            &&& source.url is None && source.data is Some ==> inner->Object_0["url"@]
                == json::JsonView::Str(
                "data:"@ + (match source.media_type {
                    Some(t) => t,
                    None => "image/png"@,
                }) + ";base64,"@ + source.data->0,
            )
        },
        types::BlockView::Document { source, .. } => {
            let inner = part->Object_0["file"@];
            &&& json::holds(part->Object_0, "type"@, json::JsonView::Str("file"@))
            &&& part->Object_0.contains_key("file"@) && inner is Object
            &&& inner->Object_0.contains_key("file_data"@)
            &&& source.data is Some ==> inner->Object_0["file_data"@] == json::JsonView::Str(
                "data:"@ + (match source.media_type {
                    Some(t) => t,
                    None => "application/pdf"@,
                }) + ";base64,"@ + source.data->0,
            )
        },
        _ => false,
    }
}

/// The blocks of a user that can be said.
pub open spec fn said_among(blocks: Seq<types::BlockView>) -> Seq<types::BlockView> {
    blocks.filter(|b: types::BlockView| sayable(b))
}

proof fn lemma_parts_are_said(blocks: Seq<types::BlockView>)
    ensures
        parts_of(blocks).len() == said_among(blocks).len(),
        forall|i: int|
            0 <= i < said_among(blocks).len() ==> sayable(#[trigger] said_among(blocks)[i])
                && says_block(parts_of(blocks)[i], said_among(blocks)[i]),
    decreases blocks.len(),
{
    reveal(Seq::filter);
    if blocks.len() > 0 {
        lemma_parts_are_said(blocks.drop_last());
        lemma_message_members();
        if let Some(p) = part_of(blocks.last()) {
            assert(says_block(p, blocks.last()));
        }
    }
}

/// What a user says is told to the model: a single text as it is, and else every text,
/// image and document in its place.
pub proof fn what_the_user_says_is_told(blocks: Seq<types::BlockView>, message: types::MessageView)
    requires
        message.role == Role::User,
        message.content == types::ContentView::Blocks(blocks),
    ensures
        ({
            let told = chat_messages(message);
            let parts = said_among(blocks);
            &&& parts.len() == 0 ==> told.len() == results_among(blocks).len()
            &&& parts.len() > 0 ==> told.len() == results_among(blocks).len() + 1
            &&& parts.len() == 1 && parts[0] is Text ==> says(
                told.last(),
                "user"@,
                json::JsonView::Str(parts[0]->text),
            )
            &&& parts.len() > 1 || (parts.len() == 1 && !(parts[0] is Text)) ==> {
                &&& told.last() is Object
                &&& told.last()->Object_0.contains_key("content"@)
                &&& told.last()->Object_0["content"@] is Array
                &&& told.last()->Object_0["content"@]->Array_0.len() == parts.len()
                &&& forall|i: int|
                    0 <= i < parts.len() ==> says_block(
                        #[trigger] told.last()->Object_0["content"@]->Array_0[i],
                        parts[i],
                    )
            }
        }),
{
    lemma_message_members();
    lemma_results_are_told(blocks);
    lemma_parts_are_said(blocks);
    let parts = parts_of(blocks);
    let said = said_among(blocks);
    if parts.len() > 0 {
        assert(sayable(said[0]) && says_block(parts[0], said[0]));
        assert(chat_messages(message).last() == user_message(parts)[0]);
    }
}

/// Texts are told by the role that spoke, as they are, in one message each.
pub proof fn texts_are_told(message: types::MessageView, t: Seq<char>)
    requires
        message.content == types::ContentView::Text(t),
    ensures
        chat_messages(message).len() == 1,
        message.role == Role::User ==> says(
            chat_messages(message)[0],
            "user"@,
            json::JsonView::Str(t),
        ),
        message.role == Role::Assistant ==> says(
            chat_messages(message)[0],
            "assistant"@,
            json::JsonView::Str(t),
        ),
        message.role == Role::System ==> says(
            chat_messages(message)[0],
            "system"@,
            json::JsonView::Str(t),
        ),
{
    lemma_message_members();
}

/// A call of a tool, as the API takes it.
pub open spec fn calls_tool(
    call: json::JsonView,
    id: Seq<char>,
    name: Seq<char>,
    input: json::JsonView,
) -> bool {
    &&& call is Object
    &&& json::holds(call->Object_0, "id"@, json::JsonView::Str(id))
    &&& json::holds(call->Object_0, "type"@, json::JsonView::Str("function"@))
    &&& call->Object_0.contains_key("function"@) && call->Object_0["function"@] is Object
    &&& json::holds(call->Object_0["function"@]->Object_0, "name"@, json::JsonView::Str(name))
    &&& json::holds(
        call->Object_0["function"@]->Object_0,
        "arguments"@,
        json::JsonView::Str(json::json_printed(input)),
    )
}

/// The calls of tools among blocks.
pub open spec fn calls_among(blocks: Seq<types::BlockView>) -> Seq<types::BlockView> {
    blocks.filter(|b: types::BlockView| b is ToolUse)
}

proof fn lemma_calls_are_told(blocks: Seq<types::BlockView>)
    ensures
        calls_json(blocks).len() == calls_among(blocks).len(),
        forall|i: int|
            0 <= i < calls_among(blocks).len() ==> {
                &&& (#[trigger] calls_among(blocks)[i]) is ToolUse
                &&& calls_tool(
                    calls_json(blocks)[i],
                    calls_among(blocks)[i]->id,
                    calls_among(blocks)[i]->name,
                    calls_among(blocks)[i]->input,
                )
            },
    decreases blocks.len(),
{
    reveal(Seq::filter);
    if blocks.len() > 0 {
        lemma_calls_are_told(blocks.drop_last());
        lemma_message_members();
        if let types::BlockView::ToolUse { id, name, input } = blocks.last() {
            assert(calls_tool(call_json(id, name, input), id, name, input));
        }
    }
}

/// What the assistant did is told in one message: every call of a tool in its place,
/// with its id, its name and its arguments as text, beside what the assistant said; and
/// without calls what it said alone.
pub proof fn what_the_assistant_did_is_told(
    blocks: Seq<types::BlockView>,
    message: types::MessageView,
)
    requires
        message.role == Role::Assistant,
        message.content == types::ContentView::Blocks(blocks),
    ensures
        ({
            let calls = calls_among(blocks);
            let text = types::blocks_text(blocks);
            &&& chat_messages(message).len() == 1
            &&& chat_messages(message)[0] matches json::JsonView::Object(o)
            &&& json::holds(o, "role"@, json::JsonView::Str("assistant"@))
            &&& text.len() > 0 || calls.len() == 0 ==> json::holds(
                o,
                "content"@,
                json::JsonView::Str(text),
            )
            &&& calls.len() == 0 ==> !o.contains_key("tool_calls"@)
            &&& calls.len() > 0 ==> {
                &&& o.contains_key("tool_calls"@) && o["tool_calls"@] is Array
                &&& o["tool_calls"@]->Array_0.len() == calls.len()
                &&& forall|i: int|
                    0 <= i < calls.len() ==> calls_tool(
                        #[trigger] o["tool_calls"@]->Array_0[i],
                        calls[i]->id,
                        calls[i]->name,
                        calls[i]->input,
                    )
            }
        }),
{
    lemma_message_members();
    lemma_calls_are_told(blocks);
}

/// The body asks what the request asks: of the model that is named, with its limit of
/// tokens under the name that the model takes and its temperature, as a stream that tells
/// the usage; with the system prompt first, and every tool by its name, description and
/// schema.
pub proof fn the_body_asks_what_is_asked(model: Seq<char>, request: types::RequestView)
    ensures
        chat_body(model, request) matches json::JsonView::Object(o) && {
            &&& json::holds(o, "model"@, json::JsonView::Str(model))
            &&& json::holds(o, "stream"@, json::JsonView::Bool(true))
            &&& o.contains_key("stream_options"@) && o["stream_options"@] is Object
            &&& json::holds(
                o["stream_options"@]->Object_0,
                "include_usage"@,
                json::JsonView::Bool(true),
            )
            &&& ("gpt-5"@).is_prefix_of(model) || ("o1"@).is_prefix_of(model) || (
            "o3"@).is_prefix_of(model) ==> json::holds(
                o,
                "max_completion_tokens"@,
                json::JsonView::UInt(request.max_tokens as u64),
            ) && !o.contains_key("max_tokens"@)
            &&& !("gpt-5"@).is_prefix_of(model) && !("o1"@).is_prefix_of(model) && !(
            "o3"@).is_prefix_of(model) ==> json::holds(
                o,
                "max_tokens"@,
                json::JsonView::UInt(request.max_tokens as u64),
            ) && !o.contains_key("max_completion_tokens"@) && !o.contains_key(
                "reasoning_effort"@,
            )
            &&& request.temperature is Some ==> json::holds(
                o,
                "temperature"@,
                request.temperature->0,
            )
            &&& request.temperature is None ==> !o.contains_key("temperature"@)
            &&& o.contains_key("messages"@) && o["messages"@] is Array
            &&& request.system is None ==> o["messages"@]->Array_0 == all_chat_messages(
                request.messages,
            )
            &&& request.system is Some ==> {
                &&& o["messages"@]->Array_0.len() == all_chat_messages(request.messages).len() + 1
                &&& says(
                    o["messages"@]->Array_0[0],
                    "system"@,
                    json::JsonView::Str(request.system->0),
                )
                &&& o["messages"@]->Array_0.skip(1) == all_chat_messages(request.messages)
            }
            &&& request.tools.len() == 0 ==> !o.contains_key("tools"@)
            &&& request.tools.len() > 0 ==> {
                &&& o.contains_key("tools"@) && o["tools"@] is Array
                &&& o["tools"@]->Array_0.len() == request.tools.len()
                &&& forall|i: int|
                    0 <= i < request.tools.len() ==> offers_tool(
                        #[trigger] o["tools"@]->Array_0[i],
                        request.tools[i],
                    )
            }
        },
{
    lemma_body_members();
    lemma_message_members();
    assert(request_messages(request).skip(1) =~= all_chat_messages(request.messages)
        || request.system is None);
}

/// A tool, as the API takes it.
pub open spec fn offers_tool(offer: json::JsonView, tool: types::ToolView) -> bool {
    &&& offer is Object
    &&& json::holds(offer->Object_0, "type"@, json::JsonView::Str("function"@))
    &&& offer->Object_0.contains_key("function"@) && offer->Object_0["function"@] is Object
    &&& json::holds(
        offer->Object_0["function"@]->Object_0,
        "name"@,
        json::JsonView::Str(tool.name),
    )
    &&& json::holds(
        offer->Object_0["function"@]->Object_0,
        "description"@,
        json::JsonView::Str(tool.description),
    )
    &&& json::holds(offer->Object_0["function"@]->Object_0, "parameters"@, tool.input_schema)
}

/// An effort that the options name is asked of a model that reasons.
pub proof fn efforts_are_asked_of_models_that_reason(
    model: Seq<char>,
    request: types::RequestView,
    effort: Seq<char>,
)
    requires
        json::holds(request.options, "reasoning_effort"@, json::JsonView::Str(effort)),
        ("gpt-5"@).is_prefix_of(model) || ("o1"@).is_prefix_of(model) || ("o3"@).is_prefix_of(
            model,
        ),
    ensures
        chat_body(model, request) matches json::JsonView::Object(o) && json::holds(
            o,
            "reasoning_effort"@,
            json::JsonView::Str(effort),
        ),
{
    lemma_body_members();
}

/// A piece is of the call at an index: the one that it names, or the first.
pub open spec fn piece_for(piece: json::JsonView, i: usize) -> bool {
    if piece is Object && piece->Object_0.contains_key("index"@)
        && piece->Object_0["index"@] is UInt {
        piece->Object_0["index"@]->UInt_0 as usize == i
    } else {
        i == 0
    }
}

/// The text that a piece gives for a part of its function.
pub open spec fn piece_gives(piece: json::JsonView, key: Seq<char>) -> Option<Seq<char>> {
    if piece is Object && piece->Object_0.contains_key("function"@)
        && piece->Object_0["function"@] is Object
        && piece->Object_0["function"@]->Object_0.contains_key(key)
        && piece->Object_0["function"@]->Object_0[key] is Str {
        Some(piece->Object_0["function"@]->Object_0[key]->Str_0)
    } else {
        None
    }
}

/// The arguments that the pieces for an index give, one after another.
pub open spec fn arguments_for(pieces: Seq<json::JsonView>, i: usize) -> Seq<char>
    decreases pieces.len(),
{
    if pieces.len() == 0 {
        Seq::empty()
    } else {
        let before = arguments_for(pieces.drop_last(), i);
        match piece_gives(pieces.last(), "arguments"@) {
            Some(t) if piece_for(pieces.last(), i) => before + t,
            _ => before,
        }
    }
}

/// The last name that a piece for an index gives, or `first`.
pub open spec fn name_for(pieces: Seq<json::JsonView>, i: usize, first: Seq<char>) -> Seq<char>
    decreases pieces.len(),
{
    if pieces.len() == 0 {
        first
    } else {
        match piece_gives(pieces.last(), "name"@) {
            Some(t) if piece_for(pieces.last(), i) => t,
            _ => name_for(pieces.drop_last(), i, first),
        }
    }
}

/// The last id that a piece for an index gives, or `first`.
pub open spec fn id_for(pieces: Seq<json::JsonView>, i: usize, first: Seq<char>) -> Seq<char>
    decreases pieces.len(),
{
    if pieces.len() == 0 {
        first
    } else {
        let piece = pieces.last();
        if piece_for(piece, i) && piece is Object && piece->Object_0.contains_key("id"@)
            && piece->Object_0["id"@] is Str {
            piece->Object_0["id"@]->Str_0
        } else {
            id_for(pieces.drop_last(), i, first)
        }
    }
}

/// Pieces belong to the call at their own index. After any pieces the call at an index
/// has the arguments of exactly the pieces for that index, in their order, after those
/// that it had, and the last id and the last name that such a piece gave; a call that no
/// piece is for is as it was.
pub proof fn pieces_belong_to_their_calls(
    calls: Map<usize, CallView>,
    pieces: Seq<json::JsonView>,
    i: usize,
)
    ensures
        ({
            let after = with_pieces(calls, pieces);
            let had = if calls.contains_key(i) {
                calls[i]
            } else {
                CallView { id: Seq::empty(), name: Seq::empty(), arguments: Seq::empty() }
            };
            &&& after.contains_key(i) <==> calls.contains_key(i) || exists|k: int|
                0 <= k < pieces.len() && piece_for(#[trigger] pieces[k], i)
            &&& after.contains_key(i) ==> after[i].arguments == had.arguments + arguments_for(
                pieces,
                i,
            )
            &&& after.contains_key(i) ==> after[i].id == id_for(pieces, i, had.id)
            &&& after.contains_key(i) ==> after[i].name == name_for(pieces, i, had.name)
        }),
    decreases pieces.len(),
{
    let had = if calls.contains_key(i) {
        calls[i]
    } else {
        CallView { id: Seq::empty(), name: Seq::empty(), arguments: Seq::empty() }
    };
    if pieces.len() == 0 {
        assert(had.arguments + arguments_for(pieces, i) =~= had.arguments);
    } else {
        let rest = pieces.drop_last();
        let piece = pieces.last();
        pieces_belong_to_their_calls(calls, rest, i);
        let before = with_pieces(calls, rest);
        let after = with_pieces(calls, pieces);
        assert(piece_for(piece, i) <==> piece.at("index"@).u64_or_zero() as usize == i);
        if exists|k: int| 0 <= k < rest.len() && piece_for(#[trigger] rest[k], i) {
            let k = choose|k: int| 0 <= k < rest.len() && piece_for(#[trigger] rest[k], i);
            assert(piece_for(pieces[k], i));
        }
        if exists|k: int| 0 <= k < pieces.len() && piece_for(#[trigger] pieces[k], i) {
            let k = choose|k: int| 0 <= k < pieces.len() && piece_for(#[trigger] pieces[k], i);
            if k < rest.len() {
                assert(piece_for(rest[k], i));
            }
        }
        if piece_for(piece, i) {
            assert(piece_for(pieces[pieces.len() - 1], i));
            if !before.contains_key(i) {
                lemma_no_pieces(rest, i, Seq::empty());
            }
            let given = piece.at("function"@).at("arguments"@).str_or(Seq::empty());
            assert(had.arguments + arguments_for(rest, i) + given =~= had.arguments + (
            arguments_for(rest, i) + given));
            assert(arguments_for(rest, i) + Seq::<char>::empty() =~= arguments_for(rest, i));
            assert(Seq::<char>::empty() + given =~= given);
            assert(had.arguments + arguments_for(pieces, i) =~= after[i].arguments);
        }
    }
}

/// Where no piece is for an index, none of them gives anything for it.
proof fn lemma_no_pieces(pieces: Seq<json::JsonView>, i: usize, first: Seq<char>)
    requires
        forall|k: int| 0 <= k < pieces.len() ==> !piece_for(#[trigger] pieces[k], i),
    ensures
        arguments_for(pieces, i) == Seq::<char>::empty(),
        id_for(pieces, i, first) == first,
        name_for(pieces, i, first) == first,
    decreases pieces.len(),
{
    if pieces.len() > 0 {
        let rest = pieces.drop_last();
        assert forall|k: int| 0 <= k < rest.len() implies !piece_for(#[trigger] rest[k], i) by {
            assert(rest[k] == pieces[k]);
        }
        assert(!piece_for(pieces[pieces.len() - 1], i));
        lemma_no_pieces(rest, i, first);
    }
}

/// A chunk has a delta in its first choice.
pub open spec fn has_delta(
    chunk: json::JsonView,
    choice: Map<Seq<char>, json::JsonView>,
    delta: Map<Seq<char>, json::JsonView>,
) -> bool {
    &&& chunk is Object && chunk->Object_0.contains_key("choices"@)
    &&& chunk->Object_0["choices"@] is Array && chunk->Object_0["choices"@]->Array_0.len() > 0
    &&& chunk->Object_0["choices"@]->Array_0[0] == json::JsonView::Object(choice)
    &&& json::holds(choice, "delta"@, json::JsonView::Object(delta))
}

/// The text of a chunk is told as it is, in the first block, which starts with the first
/// text; the pieces of its calls are added to the calls.
pub proof fn chunks_are_read(
    state: ChatState,
    chunk: json::JsonView,
    choice: Map<Seq<char>, json::JsonView>,
    delta: Map<Seq<char>, json::JsonView>,
    t: Seq<char>,
    pieces: Seq<json::JsonView>,
)
    requires
        has_delta(chunk, choice, delta),
    ensures
        ({
            let events = state.chunk_events(chunk);
            let after = state.after_chunk(chunk);
            let told = types::EventView::TextDelta { index: 0, text: t };
            &&& json::holds(delta, "content"@, json::JsonView::Str(t)) && state.text_started
                ==> events.len() > 0 && events[0] == told
            &&& json::holds(delta, "content"@, json::JsonView::Str(t)) && !state.text_started
                ==> events.len() > 1 && events[0] == (types::EventView::ContentBlockStart {
                index: 0,
                block_type: "text"@,
                id: None,
                name: None,
            }) && events[1] == told && after.text_started
            &&& state.text_started ==> after.text_started
            &&& json::holds(delta, "tool_calls"@, json::JsonView::Array(pieces)) ==> after.calls
                == with_pieces(state.calls, pieces) && after.has_tool_calls
            &&& !delta.contains_key("tool_calls"@) ==> after.calls == state.calls
                && after.has_tool_calls == state.has_tool_calls
            &&& !delta.contains_key("content"@) ==> after.text_started == state.text_started
            &&& !delta.contains_key("content"@) && !chunk->Object_0.contains_key("usage"@)
                ==> events.len() == 0
            &&& after.done == state.done
        }),
{
}

/// The usage of a chunk is told at its end: the tokens of the prompt as those of the
/// input, those of the completion as those of the output, with why the model stopped.
pub proof fn usage_of_chunks_is_told(
    state: ChatState,
    chunk: json::JsonView,
    choice: Map<Seq<char>, json::JsonView>,
    delta: Map<Seq<char>, json::JsonView>,
    usage: Map<Seq<char>, json::JsonView>,
    input: u64,
    output: u64,
)
    requires
        has_delta(chunk, choice, delta),
        json::holds(chunk->Object_0, "usage"@, json::JsonView::Object(usage)),
        json::holds(usage, "prompt_tokens"@, json::JsonView::UInt(input)),
        json::holds(usage, "completion_tokens"@, json::JsonView::UInt(output)),
    ensures
        state.chunk_events(chunk).len() > 0,
        state.chunk_events(chunk).last() matches types::EventView::MessageDelta {
            stop_reason,
            usage: used,
        } && {
            &&& used matches Some(u) && u.input_tokens == input && u.output_tokens == output
            &&& json::holds(choice, "finish_reason"@, json::JsonView::Str("stop"@)) ==> stop_reason
                == Some(StopReason::EndTurn)
            &&& json::holds(choice, "finish_reason"@, json::JsonView::Str("tool_calls"@))
                ==> stop_reason == Some(StopReason::ToolUse)
            &&& json::holds(choice, "finish_reason"@, json::JsonView::Str("length"@))
                ==> stop_reason == Some(StopReason::MaxTokens)
            &&& !choice.contains_key("finish_reason"@) ==> stop_reason is None
        },
{
    lemma_finish_names();
}

proof fn lemma_finish_names()
    ensures
        "stop"@ != "tool_calls"@,
        "stop"@ != "length"@,
        "tool_calls"@ != "length"@,
{
    reveal_strlit("stop");
    reveal_strlit("tool_calls");
    reveal_strlit("length");
    assert("stop"@.len() == 4);
    assert("tool_calls"@.len() == 10);
    assert("length"@.len() == 6);
}

proof fn lemma_calls_end(state: ChatState, order: Seq<usize>, k: int)
    requires
        0 <= k < order.len(),
    ensures
        ({
            let events = state.call_events(order);
            let call = state.calls[order[k]];
            let at = if order[k] == usize::MAX {
                0usize
            } else {
                (order[k] + 1) as usize
            };
            &&& events.len() == 3 * order.len()
            &&& events[3 * k] == (types::EventView::ContentBlockStart {
                index: at,
                block_type: "tool_use"@,
                id: Some(call.id),
                name: Some(call.name),
            })
            &&& events[3 * k + 1] == (types::EventView::InputJsonDelta {
                index: at,
                partial_json: call.arguments,
            })
            &&& events[3 * k + 2] == (types::EventView::ContentBlockStop { index: at })
        }),
    decreases order.len(),
{
    let rest = order.drop_last();
    if rest.len() > 0 {
        let j = if k < rest.len() {
            k
        } else {
            0
        };
        lemma_calls_end(state, rest, j);
        assert(rest[j] == order[j]);
    } else {
        assert(state.call_events(rest).len() == 0);
    }
}

/// At the end of a stream every call is told as a block of its own, one behind the index
/// of the call: with its id, its name and all of its arguments. Then the text ends, where
/// there was one, and the message: for its calls, where there were any.
pub proof fn calls_are_told_at_the_end(state: ChatState, order: Seq<usize>, k: int)
    requires
        0 <= k < order.len(),
        order[k] < usize::MAX,
    ensures
        ({
            let events = state.final_events(order);
            let call = state.calls[order[k]];
            let at = (order[k] + 1) as usize;
            &&& events.len() >= 3 * order.len() + 2
            &&& events[3 * k] == (types::EventView::ContentBlockStart {
                index: at,
                block_type: "tool_use"@,
                id: Some(call.id),
                name: Some(call.name),
            })
            &&& events[3 * k + 1] == (types::EventView::InputJsonDelta {
                index: at,
                partial_json: call.arguments,
            })
            &&& events[3 * k + 2] == (types::EventView::ContentBlockStop { index: at })
        }),
{
    lemma_calls_end(state, order, k);
}

/// A stream ends with the end of its message, which tells whether tools are to be run;
/// a text that was begun is ended before.
pub proof fn streams_end_with_their_message(state: ChatState, order: Seq<usize>)
    ensures
        ({
            let events = state.final_events(order);
            let n = events.len() as int;
            &&& n >= 2
            &&& events[n - 1] == types::EventView::MessageStop
            &&& events[n - 2] == (types::EventView::MessageDelta {
                stop_reason: Some(
                    if state.has_tool_calls {
                        StopReason::ToolUse
                    } else {
                        StopReason::EndTurn
                    },
                ),
                usage: None,
            })
            &&& state.text_started ==> n >= 3 && events[n - 3] == (
            types::EventView::ContentBlockStop { index: 0 })
        }),
{
}

/// A line is read by what stands behind `data: `: the mark of the end ends the stream,
/// JSON is a chunk, and any other line says nothing.
pub proof fn lines_are_read_by_their_data(state: ChatState, data: Seq<char>, order: Seq<usize>)
    requires
        text::tight(data),
    ensures
        ({
            let line = "data: "@ + data;
            &&& data == "[DONE]"@ ==> state.after_line(line).done && state.line_events(line, order)
                == state.final_events(order)
            &&& data != "[DONE]"@ && json::json_read(data) is Some ==> state.after_line(line)
                == state.after_chunk(json::json_read(data)->0) && state.line_events(line, order)
                == state.chunk_events(json::json_read(data)->0)
            &&& data != "[DONE]"@ && json::json_read(data) is None ==> state.after_line(line)
                == state && state.line_events(line, order).len() == 0
        }),
{
    let line = "data: "@ + data;
    assert("data: "@.is_prefix_of(line));
    assert(line.skip("data: "@.len() as int) =~= data);
    text::tight_texts_stay(data);
}

/// A token or a key goes behind the word for bearers.
pub proof fn credentials_go_in_the_header(key: String, id: String, token: anthropic::OAuthToken)
    ensures
        bearer_of(Auth::ApiKey(key)) == "Bearer "@ + key@,
        bearer_of(Auth::Bearer(key)) == "Bearer "@ + key@,
        bearer_of(Auth::OAuth { client_id: id, token }) == "Bearer "@ + token.access_token@,
{
}

/// The context window of a model goes by its generation: a million tokens for the fifth,
/// 200000 for those that reason, 128000 for the optimised ones of the fourth and for models
/// that are not known, 8192 for the other ones of the fourth, 16385 for the one before.
pub proof fn windows_go_by_the_generation(model: Seq<char>)
    ensures
        ({
            let fifth = text::occurs("gpt-5"@, model);
            let reasoning = "o1"@.is_prefix_of(model) || "o3"@.is_prefix_of(model);
            let optimised = text::occurs("gpt-4o"@, model) || text::occurs("gpt-4-turbo"@, model);
            let fourth = text::occurs("gpt-4"@, model);
            let third = text::occurs("gpt-3.5"@, model);
            let older = !fifth && !reasoning && !optimised;
            &&& fifth ==> window_of(model) == 1_000_000
            &&& !fifth && reasoning ==> window_of(model) == 200_000
            &&& !fifth && !reasoning && optimised ==> window_of(model) == 128_000
            &&& older && fourth ==> window_of(model) == 8_192
            &&& older && !fourth && third ==> window_of(model) == 16_385
            &&& older && !fourth && !third ==> window_of(model) == 128_000
        }),
{
}

/// At the end of a stream every call that was put together is told once, and no other.
pub proof fn orders_name_every_call_once(
    calls: Map<usize, CallView>,
    order: Seq<usize>,
    index: usize,
)
    requires
        call_order(calls, order),
    ensures
        calls.contains_key(index) <==> order.contains(index),
        forall|i: int, j: int|
            #![trigger order[i], order[j]]
            0 <= i < j < order.len() ==> order[i] != order[j],
{
    assert(order.to_set().contains(index) <==> calls.dom().contains(index));
}

/// A provider without settings has none.
pub proof fn builders_start_without_settings()
    ensures
        OpenAiBuilder::unset().api_key is None,
        OpenAiBuilder::unset().base_url is None,
        OpenAiBuilder::unset().model is None,
{
}

/// A request goes to the chat endpoint with its credentials, and asks the model that it
/// names, or the default one.
pub proof fn requests_go_to_the_chat_endpoint(
    provider: &OpenAi,
    request: &CompletionRequest,
    r: anthropic::HttpRequest,
)
    requires
        call_ensures(OpenAi::plan, (provider, request), r),
    ensures
        r.url@ == provider.base_url@ + "/chat/completions"@,
        r.headers@.len() == 2,
        r.headers@[0].0@ == "authorization"@ && r.headers@[0].1@ == bearer_of(provider.auth),
        r.headers@[1].0@ == "content-type"@ && r.headers@[1].1@ == "application/json"@,
        request.model@.len() > 0 ==> r.body@ == chat_body(request.model@, request@),
        request.model@.len() == 0 ==> r.body@ == chat_body(provider.default_model@, request@),
{
    let h = anthropic::headers_view(r.headers@);
    assert(h.len() == 2);
    assert(h[0] == anthropic::header(r.headers@[0]));
    assert(h[1] == anthropic::header(r.headers@[1]));
}

/// Every result of a tool in a message of the user is put into the chat, under the id of its
/// call, behind what was there.
pub proof fn results_are_put_into_the_chat(
    out: &mut Vec<Json>,
    message: &Message,
    r: (),
    blocks: Seq<types::BlockView>,
    k: int,
)
    requires
        call_ensures(push_chat_messages, (out, message), r),
        message@.role == Role::User,
        message@.content == types::ContentView::Blocks(blocks),
        0 <= k < results_among(blocks).len(),
    ensures
        ({
            let before = json::items_view(old(out)@);
            let after = json::items_view(final(out)@);
            let result = results_among(blocks)[k];
            &&& after.len() >= before.len() + results_among(blocks).len()
            &&& after.take(before.len() as int) == before
            &&& result is ToolResult
            &&& answers(
                after[before.len() + k],
                result->ToolResult_tool_use_id,
                result->ToolResult_content,
            )
        }),
{
    let before = json::items_view(old(out)@);
    let after = json::items_view(final(out)@);
    results_of_tools_are_told(blocks, message@);
    assert(after.take(before.len() as int) =~= before);
}

/// The pieces of a chunk go to the calls at their own indices.
pub proof fn chunks_give_pieces_to_their_calls(
    reader: &mut ChatReader,
    chunk: &Json,
    r: Vec<StreamEvent>,
    pieces: Seq<json::JsonView>,
    i: usize,
)
    requires
        call_ensures(ChatReader::chunk, (reader, chunk), r),
        chunk@.at("choices"@).idx(0).at("delta"@).at("tool_calls"@) == json::JsonView::Array(
            pieces,
        ),
        !old(reader)@.calls.contains_key(i),
    ensures
        final(reader)@.calls.contains_key(i) <==> exists|k: int|
            0 <= k < pieces.len() && piece_for(#[trigger] pieces[k], i),
        final(reader)@.calls.contains_key(i) ==> final(reader)@.calls[i].arguments
            == arguments_for(pieces, i),
{
    pieces_belong_to_their_calls(old(reader)@.calls, pieces, i);
    assert(Seq::<char>::empty() + arguments_for(pieces, i) =~= arguments_for(pieces, i));
}

/// A provider from the environment has the key that is set, and the usual address unless
/// another one is; without a key there is none.
pub proof fn providers_have_their_key_and_address(
    key: String,
    with_key: Result<OpenAi, CerseiError>,
    without: Result<OpenAi, CerseiError>,
)
    ensures
        call_ensures(OpenAi::from_env, (Some(key), None), with_key) ==> with_key is Ok && (
        with_key->Ok_0).auth == Auth::ApiKey(key) && (with_key->Ok_0).base_url@
            == "https://api.openai.com/v1"@ && (with_key->Ok_0).default_model@ == "gpt-4o"@,
        call_ensures(OpenAi::from_env, (None, None), without) ==> without is Err && without->Err_0
            is Auth,
{
}

} // verus!
