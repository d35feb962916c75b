//! Messages as the JSON that goes over the wire.

use crate::json;
use crate::json::{Json, JsonObject};
use crate::text;
use crate::types;
use crate::types::{
    ContentBlock, MediaSource, MessageContent, Role, ToolResultContent,
};
use vstd::prelude::*;
use vstd::string::*;

verus! {

/// An object with one more member.
pub open spec fn with(
    o: Map<Seq<char>, json::JsonView>,
    key: Seq<char>,
    value: json::JsonView,
) -> Map<Seq<char>, json::JsonView> {
    o.insert(key, value)
}

/// An object with one more member, where there is a text for it.
pub open spec fn with_text(
    o: Map<Seq<char>, json::JsonView>,
    key: Seq<char>,
    value: Option<Seq<char>>,
) -> Map<Seq<char>, json::JsonView> {
    match value {
        Some(t) => o.insert(key, json::JsonView::Str(t)),
        None => o,
    }
}

/// The object without members.
pub open spec fn nothing() -> Map<Seq<char>, json::JsonView> {
    Map::empty()
}

/// The object with the one member `type`.
pub open spec fn typed(kind: Seq<char>) -> Map<Seq<char>, json::JsonView> {
    nothing().insert("type"@, json::JsonView::Str(kind))
}

/// The name of a role.
pub open spec fn role_name(role: Role) -> Seq<char> {
    match role {
        Role::User => "user"@,
        Role::Assistant => "assistant"@,
        Role::System => "system"@,
    }
}

/// The source of an image or of a document.
pub open spec fn source_json(source: types::MediaView) -> json::JsonView {
    json::JsonView::Object(
        with_text(
            with_text(
                with_text(typed(source.source_type), "media_type"@, source.media_type),
                "data"@,
                source.data,
            ),
            "url"@,
            source.url,
        ),
    )
}

/// A content block.
pub open spec fn block_json(block: types::BlockView) -> json::JsonView
    decreases block,
{
    match block {
        types::BlockView::Text { text } => json::JsonView::Object(
            with(typed("text"@), "text"@, json::JsonView::Str(text)),
        ),
        types::BlockView::Image { source } => json::JsonView::Object(
            with(typed("image"@), "source"@, source_json(source)),
        ),
        types::BlockView::Document { source, title, context } => json::JsonView::Object(
            with_text(
                with_text(
                    with(typed("document"@), "source"@, source_json(source)),
                    "title"@,
                    title,
                ),
                "context"@,
                context,
            ),
        ),
        types::BlockView::ToolUse { id, name, input } => json::JsonView::Object(
            with(
                with(
                    with(typed("tool_use"@), "id"@, json::JsonView::Str(id)),
                    "name"@,
                    json::JsonView::Str(name),
                ),
                "input"@,
                input,
            ),
        ),
        types::BlockView::ToolResult { tool_use_id, content, is_error } => {
            let o = with(
                with(typed("tool_result"@), "tool_use_id"@, json::JsonView::Str(tool_use_id)),
                "content"@,
                result_json(content),
            );
            json::JsonView::Object(
                match is_error {
                    Some(e) => with(o, "is_error"@, json::JsonView::Bool(e)),
                    None => o,
                },
            )
        },
        types::BlockView::Thinking { thinking, signature } => json::JsonView::Object(
            with(
                with(typed("thinking"@), "thinking"@, json::JsonView::Str(thinking)),
                "signature"@,
                json::JsonView::Str(signature),
            ),
        ),
        types::BlockView::RedactedThinking { data } => json::JsonView::Object(
            with(typed("redacted_thinking"@), "data"@, json::JsonView::Str(data)),
        ),
    }
}

/// The content of a tool result: a text, or a list of blocks.
pub open spec fn result_json(content: types::ResultView) -> json::JsonView
    decreases content,
{
    match content {
        types::ResultView::Text(t) => json::JsonView::Str(t),
        types::ResultView::Blocks(b) => json::JsonView::Array(blocks_json(b)),
    }
}

/// A list of content blocks.
pub open spec fn blocks_json(blocks: Seq<types::BlockView>) -> Seq<json::JsonView>
    decreases blocks,
{
    if blocks.len() == 0 {
        Seq::empty()
    } else {
        blocks_json(blocks.drop_last()).push(block_json(blocks.last()))
    }
}

/// The content of a message: a text, or a list of blocks.
pub open spec fn content_json(content: types::ContentView) -> json::JsonView {
    match content {
        types::ContentView::Text(t) => json::JsonView::Str(t),
        types::ContentView::Blocks(b) => json::JsonView::Array(blocks_json(b)),
    }
}

/// The texts of a list as JSON strings.
pub open spec fn texts_json(list: Seq<Seq<char>>) -> Seq<json::JsonView> {
    Seq::new(list.len(), |i: int| json::JsonView::Str(list[i]))
}

pub fn set_text(o: &mut JsonObject, key: &str, value: &Option<String>)
    ensures
        final(o)@ == with_text(old(o)@, key@, types::opt_view(*value)),
{
    if let Some(t) = value {
        o.set(key, Json::Str(t.clone()));
    }
}

/// An object with the one member `type`.
pub fn typed_object(kind: &str) -> (r: JsonObject)
    ensures
        r@ == typed(kind@),
{
    let mut o = JsonObject::new();
    o.set("type", Json::str(kind));
    o
}

/// The name of a role.
pub fn role_text(role: Role) -> (r: &'static str)
    ensures
        r@ == role_name(role),
{
    match role {
        Role::User => "user",
        Role::Assistant => "assistant",
        Role::System => "system",
    }
}

/// The source of an image or of a document as JSON.
pub fn source_to_json(source: &MediaSource) -> (r: Json)
    ensures
        r@ == source_json(source@),
{
    let mut o = typed_object(source.source_type.as_str());
    set_text(&mut o, "media_type", &source.media_type);
    set_text(&mut o, "data", &source.data);
    set_text(&mut o, "url", &source.url);
    Json::Object(o)
}

/// A content block as JSON.
pub fn block_to_json(block: &ContentBlock) -> (r: Json)
    ensures
        r@ == block_json(block@),
    decreases block,
{
    match block {
        ContentBlock::Text { text } => {
            let mut o = typed_object("text");
            o.set("text", Json::Str(text.clone()));
            Json::Object(o)
        },
        ContentBlock::Image { source } => {
            let mut o = typed_object("image");
            o.set("source", source_to_json(source));
            Json::Object(o)
        },
        ContentBlock::Document { source, title, context } => {
            let mut o = typed_object("document");
            o.set("source", source_to_json(source));
            set_text(&mut o, "title", title);
            set_text(&mut o, "context", context);
            Json::Object(o)
        },
        ContentBlock::ToolUse { id, name, input } => {
            let mut o = typed_object("tool_use");
            o.set("id", Json::Str(id.clone()));
            o.set("name", Json::Str(name.clone()));
            o.set("input", input.copy());
            Json::Object(o)
        },
        ContentBlock::ToolResult { tool_use_id, content, is_error } => {
            let mut o = typed_object("tool_result");
            o.set("tool_use_id", Json::Str(tool_use_id.clone()));
            o.set("content", result_to_json(content));
            if let Some(e) = is_error {
                o.set("is_error", Json::Bool(*e));
            }
            Json::Object(o)
        },
        ContentBlock::Thinking { thinking, signature } => {
            let mut o = typed_object("thinking");
            o.set("thinking", Json::Str(thinking.clone()));
            o.set("signature", Json::Str(signature.clone()));
            Json::Object(o)
        },
        ContentBlock::RedactedThinking { data } => {
            let mut o = typed_object("redacted_thinking");
            o.set("data", Json::Str(data.clone()));
            Json::Object(o)
        },
    }
}

/// The content of a tool result as JSON.
pub fn result_to_json(content: &ToolResultContent) -> (r: Json)
    ensures
        r@ == result_json(content@),
    decreases content,
{
    match content {
        ToolResultContent::Text(t) => Json::Str(t.clone()),
        ToolResultContent::Blocks(b) => {
            let mut out: Vec<Json> = Vec::new();
            let mut i: usize = 0;
            proof {
                types::lemma_blocks_view(b@);
            }
            let ghost all = types::blocks_view(b@);
            assert(all.take(0) =~= Seq::empty());
            while i < b.len()
                invariant
                    i <= b@.len(),
                    content matches ToolResultContent::Blocks(d) && d == b,
                    all.len() == b@.len(),
                    forall|j: int| 0 <= j < b@.len() ==> #[trigger] all[j] == b@[j]@,
                    json::items_view(out@) == blocks_json(all.take(i as int)),
                decreases b@.len() - i,
            {
                let c = block_to_json(&b[i]);
                let ghost before = out@;
                out.push(c);
                proof {
                    assert(out@.drop_last() =~= before);
                    assert(all.take(i + 1).drop_last() =~= all.take(i as int));
                    assert(all.take(i + 1).last() == b@[i as int]@);
                }
                i = i + 1;
            }
            assert(all.take(i as int) =~= all);
            Json::Array(out)
        },
    }
}

/// A list of content blocks as JSON.
pub fn blocks_to_json(b: &Vec<ContentBlock>) -> (r: Vec<Json>)
    ensures
        json::items_view(r@) == blocks_json(types::blocks_view(b@)),
{
    let mut out: Vec<Json> = Vec::new();
    let mut i: usize = 0;
    proof {
        types::lemma_blocks_view(b@);
    }
    let ghost all = types::blocks_view(b@);
    assert(all.take(0) =~= Seq::empty());
    while i < b.len()
        invariant
            i <= b@.len(),
            all.len() == b@.len(),
            forall|j: int| 0 <= j < b@.len() ==> #[trigger] all[j] == b@[j]@,
            json::items_view(out@) == blocks_json(all.take(i as int)),
        decreases b@.len() - i,
    {
        let c = block_to_json(&b[i]);
        let ghost before = out@;
        out.push(c);
        proof {
            assert(out@.drop_last() =~= before);
            assert(all.take(i + 1).drop_last() =~= all.take(i as int));
            assert(all.take(i + 1).last() == b@[i as int]@);
        }
        i = i + 1;
    }
    assert(all.take(i as int) =~= all);
    out
}

/// The content of a message as JSON.
pub fn content_to_json(content: &MessageContent) -> (r: Json)
    ensures
        r@ == content_json(content@),
{
    match content {
        MessageContent::Text(t) => Json::Str(t.clone()),
        MessageContent::Blocks(b) => Json::Array(blocks_to_json(b)),
    }
}

/// A list of texts as JSON.
pub fn texts_to_json(list: &Vec<String>) -> (r: Vec<Json>)
    ensures
        json::items_view(r@) == texts_json(text::views(list@)),
{
    let mut out: Vec<Json> = Vec::new();
    let mut i: usize = 0;
    while i < list.len()
        invariant
            i <= list@.len(),
            out@.len() == i,
            forall|j: int|
                0 <= j < i ==> #[trigger] out@[j]@ == json::JsonView::Str(list@[j]@),
        decreases list@.len() - i,
    {
        out.push(Json::Str(list[i].clone()));
        i = i + 1;
    }
    proof {
        json::lemma_items_view(out@);
        assert(json::items_view(out@) =~= texts_json(text::views(list@)));
    }
    out
}

proof fn lemma_member_names()
    ensures
        "type"@ != "text"@,
        "type"@ != "source"@,
        "type"@ != "title"@,
        "type"@ != "context"@,
        "type"@ != "id"@,
        "type"@ != "name"@,
        "type"@ != "input"@,
        "type"@ != "tool_use_id"@,
        "type"@ != "content"@,
        "type"@ != "is_error"@,
        "type"@ != "thinking"@,
        "type"@ != "signature"@,
        "type"@ != "data"@,
        "type"@ != "media_type"@,
        "type"@ != "url"@,
        "text"@ != "source"@,
        "text"@ != "title"@,
        "text"@ != "context"@,
        "text"@ != "id"@,
        "text"@ != "name"@,
        "text"@ != "input"@,
        "text"@ != "tool_use_id"@,
        "text"@ != "content"@,
        "text"@ != "is_error"@,
        "text"@ != "thinking"@,
        "text"@ != "signature"@,
        "text"@ != "data"@,
        "text"@ != "media_type"@,
        "text"@ != "url"@,
        "source"@ != "title"@,
        "source"@ != "context"@,
        "source"@ != "id"@,
        "source"@ != "name"@,
        "source"@ != "input"@,
        "source"@ != "tool_use_id"@,
        "source"@ != "content"@,
        "source"@ != "is_error"@,
        "source"@ != "thinking"@,
        "source"@ != "signature"@,
        "source"@ != "data"@,
        "source"@ != "media_type"@,
        "source"@ != "url"@,
        "title"@ != "context"@,
        "title"@ != "id"@,
        "title"@ != "name"@,
        "title"@ != "input"@,
        "title"@ != "tool_use_id"@,
        "title"@ != "content"@,
        "title"@ != "is_error"@,
        "title"@ != "thinking"@,
        "title"@ != "signature"@,
        "title"@ != "data"@,
        "title"@ != "media_type"@,
        "title"@ != "url"@,
        "context"@ != "id"@,
        "context"@ != "name"@,
        "context"@ != "input"@,
        "context"@ != "tool_use_id"@,
        "context"@ != "content"@,
        "context"@ != "is_error"@,
        "context"@ != "thinking"@,
        "context"@ != "signature"@,
        "context"@ != "data"@,
        "context"@ != "media_type"@,
        "context"@ != "url"@,
        "id"@ != "name"@,
        "id"@ != "input"@,
        "id"@ != "tool_use_id"@,
        "id"@ != "content"@,
        "id"@ != "is_error"@,
        "id"@ != "thinking"@,
        "id"@ != "signature"@,
        "id"@ != "data"@,
        "id"@ != "media_type"@,
        "id"@ != "url"@,
        "name"@ != "input"@,
        "name"@ != "tool_use_id"@,
        "name"@ != "content"@,
        "name"@ != "is_error"@,
        "name"@ != "thinking"@,
        "name"@ != "signature"@,
        "name"@ != "data"@,
        "name"@ != "media_type"@,
        "name"@ != "url"@,
        "input"@ != "tool_use_id"@,
        "input"@ != "content"@,
        "input"@ != "is_error"@,
        "input"@ != "thinking"@,
        "input"@ != "signature"@,
        "input"@ != "data"@,
        "input"@ != "media_type"@,
        "input"@ != "url"@,
        "tool_use_id"@ != "content"@,
        "tool_use_id"@ != "is_error"@,
        "tool_use_id"@ != "thinking"@,
        "tool_use_id"@ != "signature"@,
        "tool_use_id"@ != "data"@,
        "tool_use_id"@ != "media_type"@,
        "tool_use_id"@ != "url"@,
        "content"@ != "is_error"@,
        "content"@ != "thinking"@,
        "content"@ != "signature"@,
        "content"@ != "data"@,
        "content"@ != "media_type"@,
        "content"@ != "url"@,
        "is_error"@ != "thinking"@,
        "is_error"@ != "signature"@,
        "is_error"@ != "data"@,
        "is_error"@ != "media_type"@,
        "is_error"@ != "url"@,
        "thinking"@ != "signature"@,
        "thinking"@ != "data"@,
        "thinking"@ != "media_type"@,
        "thinking"@ != "url"@,
        "signature"@ != "data"@,
        "signature"@ != "media_type"@,
        "signature"@ != "url"@,
        "data"@ != "media_type"@,
        "data"@ != "url"@,
        "media_type"@ != "url"@,
{
    reveal_strlit("type");
    reveal_strlit("text");
    reveal_strlit("source");
    reveal_strlit("title");
    reveal_strlit("context");
    reveal_strlit("id");
    reveal_strlit("name");
    reveal_strlit("input");
    reveal_strlit("tool_use_id");
    reveal_strlit("content");
    reveal_strlit("is_error");
    reveal_strlit("thinking");
    reveal_strlit("signature");
    reveal_strlit("data");
    reveal_strlit("media_type");
    reveal_strlit("url");
    assert("type"@.len() == 4);
    assert("text"@.len() == 4);
    assert("source"@.len() == 6);
    assert("title"@.len() == 5);
    assert("context"@.len() == 7);
    assert("id"@.len() == 2);
    assert("name"@.len() == 4);
    assert("input"@.len() == 5);
    assert("tool_use_id"@.len() == 11);
    assert("content"@.len() == 7);
    assert("is_error"@.len() == 8);
    assert("thinking"@.len() == 8);
    assert("signature"@.len() == 9);
    assert("data"@.len() == 4);
    assert("media_type"@.len() == 10);
    assert("url"@.len() == 3);
    assert("type"@[1] != "text"@[1]);
    assert("type"@[0] != "name"@[0]);
    assert("type"@[0] != "data"@[0]);
    assert("text"@[0] != "name"@[0]);
    assert("text"@[0] != "data"@[0]);
    assert("title"@[0] != "input"@[0]);
    assert("context"@[5] != "content"@[5]);
    assert("name"@[0] != "data"@[0]);
    assert("is_error"@[0] != "thinking"@[0]);
}

/// A list of blocks has every block, in its place.
pub proof fn blocks_keep_their_places(blocks: Seq<types::BlockView>)
    ensures
        blocks_json(blocks).len() == blocks.len(),
        forall|i: int|
            0 <= i < blocks.len() ==> #[trigger] blocks_json(blocks)[i] == block_json(blocks[i]),
    decreases blocks.len(),
{
    if blocks.len() > 0 {
        blocks_keep_their_places(blocks.drop_last());
    }
}

/// A text block says its text, and a call of a tool its id, its name and its input.
pub proof fn texts_and_calls_are_sent(
    text: Seq<char>,
    id: Seq<char>,
    name: Seq<char>,
    input: json::JsonView,
)
    ensures
        block_json(types::BlockView::Text { text }) matches json::JsonView::Object(o)
            && json::holds(o, "type"@, json::JsonView::Str("text"@)) && json::holds(
            o,
            "text"@,
            json::JsonView::Str(text),
        ),
        block_json(types::BlockView::ToolUse { id, name, input }) matches json::JsonView::Object(o)
            && json::holds(o, "type"@, json::JsonView::Str("tool_use"@)) && json::holds(
            o,
            "id"@,
            json::JsonView::Str(id),
        ) && json::holds(o, "name"@, json::JsonView::Str(name)) && json::holds(o, "input"@, input),
{
    lemma_member_names();
}

/// A result says which call it answers and what came of it: a text as it is, or every
/// block in its place; and whether it is an error, where that is known.
pub proof fn results_are_sent(
    tool_use_id: Seq<char>,
    content: types::ResultView,
    is_error: Option<bool>,
)
    ensures
        block_json(
            types::BlockView::ToolResult { tool_use_id, content, is_error },
        ) matches json::JsonView::Object(o) && {
            &&& json::holds(o, "type"@, json::JsonView::Str("tool_result"@))
            &&& json::holds(o, "tool_use_id"@, json::JsonView::Str(tool_use_id))
            &&& is_error is Some ==> json::holds(
                o,
                "is_error"@,
                json::JsonView::Bool(is_error->0),
            )
            &&& is_error is None ==> !o.contains_key("is_error"@)
            &&& content matches types::ResultView::Text(t) ==> json::holds(
                o,
                "content"@,
                json::JsonView::Str(t),
            )
            &&& content matches types::ResultView::Blocks(b) ==> json::holds(
                o,
                "content"@,
                json::JsonView::Array(Seq::new(b.len(), |i: int| block_json(b[i]))),
            )
        },
{
    lemma_member_names();
    if let types::ResultView::Blocks(b) = content {
        blocks_keep_their_places(b);
        assert(blocks_json(b) =~= Seq::new(b.len(), |i: int| block_json(b[i])));
    }
}

/// Thinking is sent with its signature, and redacted thinking as it came.
pub proof fn thoughts_are_sent(thinking: Seq<char>, signature: Seq<char>, data: Seq<char>)
    ensures
        block_json(
            types::BlockView::Thinking { thinking, signature },
        ) matches json::JsonView::Object(o) && json::holds(
            o,
            "type"@,
            json::JsonView::Str("thinking"@),
        ) && json::holds(o, "thinking"@, json::JsonView::Str(thinking)) && json::holds(
            o,
            "signature"@,
            json::JsonView::Str(signature),
        ),
        block_json(types::BlockView::RedactedThinking { data }) matches json::JsonView::Object(o)
            && json::holds(o, "type"@, json::JsonView::Str("redacted_thinking"@)) && json::holds(
            o,
            "data"@,
            json::JsonView::Str(data),
        ),
{
    lemma_member_names();
}

/// Images and documents are sent with their sources: the kind of source, the type of the
/// media, and the data or the address, as far as they are there.
pub proof fn media_are_sent(
    source: types::MediaView,
    title: Option<Seq<char>>,
    context: Option<Seq<char>>,
)
    ensures
        source_json(source) matches json::JsonView::Object(o) && {
            &&& json::holds(o, "type"@, json::JsonView::Str(source.source_type))
            &&& source.media_type is Some ==> json::holds(
                o,
                "media_type"@,
                json::JsonView::Str(source.media_type->0),
            )
            &&& source.data is Some ==> json::holds(
                o,
                "data"@,
                json::JsonView::Str(source.data->0),
            )
            &&& source.url is Some ==> json::holds(o, "url"@, json::JsonView::Str(source.url->0))
        },
        block_json(types::BlockView::Image { source }) matches json::JsonView::Object(o)
            && json::holds(o, "type"@, json::JsonView::Str("image"@)) && json::holds(
            o,
            "source"@,
            source_json(source),
        ),
        block_json(
            types::BlockView::Document { source, title, context },
        ) matches json::JsonView::Object(o) && {
            &&& json::holds(o, "type"@, json::JsonView::Str("document"@))
            &&& json::holds(o, "source"@, source_json(source))
            &&& title is Some ==> json::holds(o, "title"@, json::JsonView::Str(title->0))
            &&& context is Some ==> json::holds(o, "context"@, json::JsonView::Str(context->0))
        },
{
    lemma_member_names();
}

/// The content of a message is its text as it is, or every block in its place.
pub proof fn contents_are_sent(content: types::ContentView)
    ensures
        content matches types::ContentView::Text(t) ==> content_json(content)
            == json::JsonView::Str(t),
        content matches types::ContentView::Blocks(b) ==> content_json(content)
            == json::JsonView::Array(Seq::new(b.len(), |i: int| block_json(b[i]))),
{
    if let types::ContentView::Blocks(b) = content {
        blocks_keep_their_places(b);
        assert(blocks_json(b) =~= Seq::new(b.len(), |i: int| block_json(b[i])));
    }
}

/// Roles go by their names.
pub proof fn roles_go_by_their_names()
    ensures
        role_name(Role::User) == "user"@,
        role_name(Role::Assistant) == "assistant"@,
        role_name(Role::System) == "system"@,
{
}

} // verus!
