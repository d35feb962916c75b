//! The stream accumulator: collects the events of a response stream into a
//! complete response.

use crate::json;
use crate::json::Json;
use crate::types;
use crate::types::{
    CompletionResponse, ContentBlock, Message, MessageContent, MessageMetadata, Role, StopReason,
    StreamEvent, Usage,
};
use std::collections::HashMap;
use vstd::prelude::*;
use vstd::string::*;

verus! {

broadcast use vstd::std_specs::hash::group_hash_axioms;

/// The texts that a map from block indices to strings holds.
pub open spec fn texts(m: Map<usize, String>) -> Map<usize, Seq<char>> {
    m.map_values(|s: String| s@)
}

/// The text at `index`, empty where there is none.
pub open spec fn text_at(m: Map<usize, Seq<char>>, index: usize) -> Seq<char> {
    if m.contains_key(index) {
        m[index]
    } else {
        Seq::empty()
    }
}

/// The texts with `s` appended to the one at `index`.
pub open spec fn appended(m: Map<usize, Seq<char>>, index: usize, s: Seq<char>) -> Map<
    usize,
    Seq<char>,
> {
    m.insert(index, text_at(m, index) + s)
}

/// The texts with the one at `index` set, where there is something to set.
pub open spec fn set_some(
    m: Map<usize, Seq<char>>,
    index: usize,
    s: Option<Seq<char>>,
) -> Map<usize, Seq<char>> {
    match s {
        Some(t) => m.insert(index, t),
        None => m,
    }
}

fn put(m: &mut HashMap<usize, String>, index: usize, s: String)
    ensures
        texts(final(m)@) == texts(old(m)@).insert(index, s@),
{
    m.insert(index, s);
    assert(texts(m@) =~= texts(old(m)@).insert(index, s@));
}

fn put_some(m: &mut HashMap<usize, String>, index: usize, s: Option<String>)
    ensures
        texts(final(m)@) == set_some(texts(old(m)@), index, types::opt_view(s)),
{
    if let Some(t) = s {
        put(m, index, t);
    }
}

fn take_at(m: &mut HashMap<usize, String>, index: usize) -> (r: String)
    ensures
        r@ == text_at(texts(old(m)@), index),
        texts(final(m)@) == texts(old(m)@).remove(index),
{
    let r = match m.remove(&index) {
        Some(s) => s,
        None => String::new(),
    };
    assert(texts(m@) =~= texts(old(m)@).remove(index));
    r
}

fn append_at(m: &mut HashMap<usize, String>, index: usize, s: &str)
    ensures
        texts(final(m)@) == appended(texts(old(m)@), index, s@),
{
    let mut t = take_at(m, index);
    t.append(s);
    put(m, index, t);
    assert(texts(m@) =~= appended(texts(old(m)@), index, s@));
}

fn copy_at(m: &HashMap<usize, String>, index: usize) -> (r: String)
    ensures
        r@ == text_at(texts(m@), index),
{
    match m.get(&index) {
        Some(s) => s.clone(),
        None => String::new(),
    }
}

/// Accumulates the events of a stream into content blocks.
pub struct StreamAccumulator {
    pub content_blocks: Vec<ContentBlock>,
    pub partial_text: HashMap<usize, String>,
    pub partial_json: HashMap<usize, String>,
    pub partial_thinking: HashMap<usize, String>,
    pub partial_signature: HashMap<usize, String>,
    pub redacted_thinking_data: HashMap<usize, String>,
    pub block_types: HashMap<usize, String>,
    pub tool_use_ids: HashMap<usize, String>,
    pub tool_use_names: HashMap<usize, String>,
    pub stop_reason: Option<StopReason>,
    pub usage: Usage,
    pub model: Option<String>,
    pub message_id: Option<String>,
}

/// What has been accumulated.
#[verifier::ext_equal]
pub ghost struct Accumulated {
    pub blocks: Seq<types::BlockView>,
    pub text: Map<usize, Seq<char>>,
    pub json: Map<usize, Seq<char>>,
    pub thinking: Map<usize, Seq<char>>,
    pub signature: Map<usize, Seq<char>>,
    pub redacted: Map<usize, Seq<char>>,
    pub kinds: Map<usize, Seq<char>>,
    pub ids: Map<usize, Seq<char>>,
    pub names: Map<usize, Seq<char>>,
    pub stop_reason: Option<StopReason>,
    pub usage: Usage,
    pub model: Option<Seq<char>>,
    pub message_id: Option<Seq<char>>,
}

impl View for StreamAccumulator {
    type V = Accumulated;

    open spec fn view(&self) -> Accumulated {
        Accumulated {
            blocks: types::blocks_view(self.content_blocks@),
            text: texts(self.partial_text@),
            json: texts(self.partial_json@),
            thinking: texts(self.partial_thinking@),
            signature: texts(self.partial_signature@),
            redacted: texts(self.redacted_thinking_data@),
            kinds: texts(self.block_types@),
            ids: texts(self.tool_use_ids@),
            names: texts(self.tool_use_names@),
            stop_reason: self.stop_reason,
            usage: self.usage,
            model: types::opt_view(self.model),
            message_id: types::opt_view(self.message_id),
        }
    }
}

/// The list of blocks with `block` at `index`; empty text blocks fill a gap.
pub open spec fn placed(
    blocks: Seq<types::BlockView>,
    index: int,
    block: types::BlockView,
) -> Seq<types::BlockView> {
    let len = if blocks.len() > index {
        blocks.len() as int
    } else {
        index + 1
    };
    Seq::new(
        len as nat,
        |i: int|
            if i == index {
                block
            } else if i < blocks.len() {
                blocks[i]
            } else {
                types::BlockView::Text { text: Seq::empty() }
            },
    )
}

/// The JSON value that a tool's arguments are read as; null where they are none.
pub open spec fn arguments_of(text: Seq<char>) -> json::JsonView {
    match json::json_read(text) {
        Some(v) => v,
        None => json::JsonView::Null,
    }
}

impl Accumulated {
    /// Nothing has been accumulated.
    pub open spec fn empty() -> Accumulated {
        Accumulated {
            blocks: Seq::empty(),
            text: Map::empty(),
            json: Map::empty(),
            thinking: Map::empty(),
            signature: Map::empty(),
            redacted: Map::empty(),
            kinds: Map::empty(),
            ids: Map::empty(),
            names: Map::empty(),
            stop_reason: None,
            usage: Usage::zero(),
            model: None,
            message_id: None,
        }
    }

    /// The block at `index` is complete. `input` is what the arguments of a tool
    /// call have been read as.
    pub open spec fn closed(self, index: usize, input: json::JsonView) -> Accumulated {
        let kind = text_at(self.kinds, index);
        if kind == "tool_use"@ {
            Accumulated {
                blocks: placed(
                    self.blocks,
                    index as int,
                    types::BlockView::ToolUse {
                        id: text_at(self.ids, index),
                        name: text_at(self.names, index),
                        input,
                    },
                ),
                json: self.json.remove(index),
                ids: self.ids.remove(index),
                names: self.names.remove(index),
                ..self
            }
        } else if kind == "thinking"@ {
            Accumulated {
                blocks: placed(
                    self.blocks,
                    index as int,
                    types::BlockView::Thinking {
                        thinking: text_at(self.thinking, index),
                        signature: text_at(self.signature, index),
                    },
                ),
                thinking: self.thinking.remove(index),
                signature: self.signature.remove(index),
                ..self
            }
        } else if kind == "redacted_thinking"@ {
            Accumulated {
                blocks: placed(
                    self.blocks,
                    index as int,
                    types::BlockView::RedactedThinking { data: text_at(self.redacted, index) },
                ),
                redacted: self.redacted.remove(index),
                ..self
            }
        } else {
            Accumulated {
                blocks: placed(
                    self.blocks,
                    index as int,
                    types::BlockView::Text { text: text_at(self.text, index) },
                ),
                text: self.text.remove(index),
                ..self
            }
        }
    }

    /// What one more event makes of it.
    pub open spec fn after(self, event: types::EventView) -> Accumulated {
        match event {
            types::EventView::MessageStart { id, model } => Accumulated {
                message_id: Some(id),
                model: Some(model),
                ..self
            },
            types::EventView::ContentBlockStart { index, block_type, id, name } => Accumulated {
                kinds: self.kinds.insert(index, block_type),
                ids: set_some(self.ids, index, id),
                names: set_some(self.names, index, name),
                ..self
            },
            types::EventView::TextDelta { index, text } => Accumulated {
                text: appended(self.text, index, text),
                ..self
            },
            types::EventView::InputJsonDelta { index, partial_json } => Accumulated {
                json: appended(self.json, index, partial_json),
                ..self
            },
            types::EventView::ThinkingDelta { index, thinking } => Accumulated {
                thinking: appended(self.thinking, index, thinking),
                ..self
            },
            types::EventView::SignatureDelta { index, signature } => Accumulated {
                signature: appended(self.signature, index, signature),
                ..self
            },
            types::EventView::RedactedThinking { index, data } => Accumulated {
                redacted: self.redacted.insert(index, data),
                kinds: self.kinds.insert(index, "redacted_thinking"@),
                ..self
            },
            types::EventView::ContentBlockStop { index } => self.closed(
                index,
                arguments_of(text_at(self.json, index)),
            ),
            types::EventView::MessageDelta { stop_reason, usage } => Accumulated {
                stop_reason: match stop_reason {
                    Some(s) => Some(s),
                    None => self.stop_reason,
                },
                usage: match usage {
                    Some(u) => self.usage.plus(u),
                    None => self.usage,
                },
                ..self
            },
            types::EventView::MessageStop => self,
            types::EventView::Ping => self,
            types::EventView::Error { .. } => self,
        }
    }

    /// What a sequence of events makes of it.
    pub open spec fn after_all(self, events: Seq<types::EventView>) -> Accumulated
        decreases events.len(),
    {
        if events.len() == 0 {
            self
        } else {
            self.after_all(events.drop_last()).after(events.last())
        }
    }

    /// The message of the response.
    pub open spec fn message(self) -> types::MessageView {
        types::MessageView {
            role: Role::Assistant,
            content: if self.blocks.len() == 0 {
                types::ContentView::Text(Seq::empty())
            } else {
                types::ContentView::Blocks(self.blocks)
            },
            id: self.message_id,
            metadata: Some(
                types::MetadataView {
                    model: self.model,
                    usage: Some(self.usage),
                    stop_reason: self.stop_reason,
                    provider_data: json::JsonView::Null,
                },
            ),
        }
    }

    /// The stop reason of the response.
    pub open spec fn final_stop_reason(self) -> StopReason {
        match self.stop_reason {
            Some(s) => s,
            None => StopReason::EndTurn,
        }
    }
}

fn place(blocks: &mut Vec<ContentBlock>, index: usize, block: ContentBlock)
    ensures
        types::blocks_view(final(blocks)@) == placed(
            types::blocks_view(old(blocks)@),
            index as int,
            block@,
        ),
{
    let ghost before = blocks@;
    while blocks.len() <= index
        invariant
            blocks@.len() >= before.len(),
            blocks@.len() <= before.len() || blocks@.len() <= index + 1,
            forall|i: int| 0 <= i < before.len() ==> blocks@[i] == before[i],
            forall|i: int|
                before.len() <= i < blocks@.len() ==> #[trigger] blocks@[i]@
                    == (types::BlockView::Text { text: Seq::empty() }),
        decreases index + 1 - blocks@.len(),
    {
        blocks.push(ContentBlock::Text { text: String::new() });
    }
    let ghost filled = blocks@;
    blocks.set(index, block);
    proof {
        types::lemma_blocks_view(before);
        types::lemma_blocks_view(blocks@);
        let want = placed(types::blocks_view(before), index as int, block@);
        assert forall|i: int| 0 <= i < blocks@.len() implies types::blocks_view(blocks@)[i]
            == want[i] by {
            if i != index && i < before.len() {
                assert(filled[i] == before[i]);
            }
        }
        assert(types::blocks_view(blocks@) =~= want);
    }
}

impl StreamAccumulator {
    /// An accumulator that has seen nothing.
    pub fn new() -> (r: StreamAccumulator)
        ensures
            r@ == Accumulated::empty(),
    {
        let r = StreamAccumulator {
            content_blocks: Vec::new(),
            partial_text: HashMap::new(),
            partial_json: HashMap::new(),
            partial_thinking: HashMap::new(),
            partial_signature: HashMap::new(),
            redacted_thinking_data: HashMap::new(),
            block_types: HashMap::new(),
            tool_use_ids: HashMap::new(),
            tool_use_names: HashMap::new(),
            stop_reason: None,
            usage: Usage::default(),
            model: None,
            message_id: None,
        };
        assert(r@ =~= Accumulated::empty());
        r
    }

    /// Whether the provider has started to respond. Before that, an error of the
    /// stream means that nothing was generated, and the request can be made again.
    pub fn has_started(&self) -> (r: bool)
        ensures
            r == self@.message_id is Some,
    {
        self.message_id.is_some()
    }

    /// Closes the block at `index`. `input` is what the arguments of a tool call
    /// have been read as.
    pub fn close_block(&mut self, index: usize, input: Json)
        ensures
            final(self)@ == old(self)@.closed(index, input@),
    {
        let kind = copy_at(&self.block_types, index);
        if crate::text::same(kind.as_str(), "tool_use") {
            take_at(&mut self.partial_json, index);
            let id = take_at(&mut self.tool_use_ids, index);
            let name = take_at(&mut self.tool_use_names, index);
            place(&mut self.content_blocks, index, ContentBlock::ToolUse { id, name, input });
        } else if crate::text::same(kind.as_str(), "thinking") {
            let thinking = take_at(&mut self.partial_thinking, index);
            let signature = take_at(&mut self.partial_signature, index);
            place(&mut self.content_blocks, index, ContentBlock::Thinking { thinking, signature });
        } else if crate::text::same(kind.as_str(), "redacted_thinking") {
            let data = take_at(&mut self.redacted_thinking_data, index);
            place(&mut self.content_blocks, index, ContentBlock::RedactedThinking { data });
        } else {
            let text = take_at(&mut self.partial_text, index);
            place(&mut self.content_blocks, index, ContentBlock::Text { text });
        }
    }

    /// Takes in one event.
    pub fn process_event(&mut self, event: StreamEvent)
        ensures
            final(self)@ == old(self)@.after(event@),
    {
        match event {
            StreamEvent::MessageStart { id, model } => {
                self.message_id = Some(id);
                self.model = Some(model);
            },
            StreamEvent::ContentBlockStart { index, block_type, id, name } => {
                put(&mut self.block_types, index, block_type);
                put_some(&mut self.tool_use_ids, index, id);
                put_some(&mut self.tool_use_names, index, name);
            },
            StreamEvent::TextDelta { index, text } => {
                append_at(&mut self.partial_text, index, text.as_str());
            },
            StreamEvent::InputJsonDelta { index, partial_json } => {
                append_at(&mut self.partial_json, index, partial_json.as_str());
            },
            StreamEvent::ThinkingDelta { index, thinking } => {
                append_at(&mut self.partial_thinking, index, thinking.as_str());
            },
            StreamEvent::SignatureDelta { index, signature } => {
                append_at(&mut self.partial_signature, index, signature.as_str());
            },
            StreamEvent::RedactedThinking { index, data } => {
                put(&mut self.redacted_thinking_data, index, data);
                put(&mut self.block_types, index, "redacted_thinking".to_string());
            },
            StreamEvent::ContentBlockStop { index } => {
                let arguments = copy_at(&self.partial_json, index);
                let input = match json::parse(arguments.as_str()) {
                    Some(v) => v,
                    None => Json::Null,
                };
                self.close_block(index, input);
            },
            StreamEvent::MessageDelta { stop_reason, usage } => {
                if stop_reason.is_some() {
                    self.stop_reason = stop_reason;
                }
                if let Some(u) = usage {
                    self.usage.merge(&u);
                }
            },
            StreamEvent::MessageStop => {},
            StreamEvent::Ping => {},
            StreamEvent::Error { .. } => {},
        }
    }

    /// The response that the events add up to.
    pub fn into_response(self) -> (r: Result<CompletionResponse, types::CerseiError>)
        ensures
            match r {
                Ok(response) => response.message@ == self@.message() && response.usage
                    == self@.usage && response.stop_reason == self@.final_stop_reason(),
                Err(_) => false,
            },
    {
        proof {
            types::lemma_blocks_view(self.content_blocks@);
        }
        let stop_reason = match self.stop_reason {
            Some(s) => s,
            None => StopReason::EndTurn,
        };
        let usage = self.usage;
        let message = Message {
            role: Role::Assistant,
            content: if self.content_blocks.len() == 0 {
                MessageContent::Text(String::new())
            } else {
                MessageContent::Blocks(self.content_blocks)
            },
            id: self.message_id,
            metadata: Some(
                MessageMetadata {
                    model: self.model,
                    usage: Some(usage),
                    stop_reason: self.stop_reason,
                    provider_data: Json::Null,
                },
            ),
        };
        assert(message@ =~= self@.message());
        Ok(CompletionResponse { message, usage, stop_reason })
    }
}

/// The text of a block; empty for a block that is none.
pub open spec fn block_text(block: types::BlockView) -> Seq<char> {
    match block {
        types::BlockView::Text { text } => text,
        _ => Seq::empty(),
    }
}

impl Accumulated {
    /// The text that stands at an index: that of a closed block, and then what has come
    /// since.
    pub open spec fn text_there(self, index: int) -> Seq<char> {
        let closed = if 0 <= index < self.blocks.len() {
            block_text(self.blocks[index])
        } else {
            Seq::empty()
        };
        if 0 <= index <= usize::MAX {
            closed + text_at(self.text, index as usize)
        } else {
            closed
        }
    }

    /// The text that stands before an index, from the first index on.
    pub open spec fn text_before(self, index: int) -> Seq<char>
        decreases index,
    {
        if index <= 0 {
            Seq::empty()
        } else {
            self.text_before(index - 1) + self.text_there(index - 1)
        }
    }

    /// The text so far: that of closed and of open blocks, by their indices.
    pub open spec fn text_so_far(self) -> Seq<char> {
        self.text_before(usize::MAX + 1)
    }
}

/// Where nothing stands, nothing is added.
proof fn lemma_text_gap(acc: Accumulated, from: int, to: int)
    requires
        0 <= from <= to,
        forall|i: int| from <= i < to ==> (#[trigger] acc.text_there(i)).len() == 0,
    ensures
        acc.text_before(to) == acc.text_before(from),
    decreases to - from,
{
    if from < to {
        lemma_text_gap(acc, from, to - 1);
        assert(acc.text_there(to - 1).len() == 0);
        assert(acc.text_before(to) =~= acc.text_before(to - 1));
    }
}

impl StreamAccumulator {
    /// The first index from `from` on at which a text is open.
    fn next_open(&self, from: usize) -> (r: Option<usize>)
        ensures
            match r {
                Some(k) => {
                    &&& from <= k
                    &&& self@.text.contains_key(k)
                    &&& forall|i: usize| from <= i < k ==> !#[trigger] self@.text.contains_key(i)
                },
                None => forall|i: usize| from <= i ==> !#[trigger] self@.text.contains_key(i),
            },
    {
        let ghost m = self.partial_text@;
        let mut best: Option<usize> = None;
        for key in it: self.partial_text.keys()
            invariant
                m == self.partial_text@,
                it.seq().unref().to_set() == m.dom(),
                best matches Some(b) ==> from <= b && m.contains_key(b),
                forall|i: int|
                    0 <= i < it.index() && from <= *(#[trigger] it.seq()[i]) ==> best is Some
                        && best->0 <= *it.seq()[i],
        {
            let k: usize = *key;
            proof {
                let e = it.seq()[it.index() as int];
                assert(key == e);
                assert(it.seq().unref()[it.index() as int] == k);
                assert(it.seq().unref().to_set().contains(k));
            }
            if k >= from {
                match best {
                    Some(b) => {
                        if k < b {
                            best = Some(k);
                        }
                    },
                    None => {
                        best = Some(k);
                    },
                }
            }
        }
        proof {
            assert(m.dom() =~= self@.text.dom());
        }
        best
    }

    /// The text so far, for display: that of closed and of open blocks, by their indices.
    pub fn current_text(&self) -> (r: String)
        ensures
            r@ == self@.text_so_far(),
    {
        proof {
            types::lemma_blocks_view(self.content_blocks@);
        }
        let mut out = String::new();
        let mut n: usize = 0;
        while n < self.content_blocks.len()
            invariant
                n <= self.content_blocks@.len(),
                self@.blocks.len() == self.content_blocks@.len(),
                forall|i: int|
                    0 <= i < self.content_blocks@.len() ==> self@.blocks[i]
                        == #[trigger] self.content_blocks@[i]@,
                out@ == self@.text_before(n as int),
            decreases self.content_blocks@.len() - n,
        {
            let ghost before = out@;
            if let ContentBlock::Text { text } = &self.content_blocks[n] {
                out.append(text.as_str());
            }
            let open = copy_at(&self.partial_text, n);
            out.append(open.as_str());
            assert(self.content_blocks@[n as int]@ == self@.blocks[n as int]);
            assert(out@ =~= before + self@.text_there(n as int));
            n = n + 1;
        }
        loop
            invariant_except_break
                self@.blocks.len() <= n,
                out@ == self@.text_before(n as int),
            ensures
                out@ == self@.text_so_far(),
            decreases usize::MAX - n,
        {
            match self.next_open(n) {
                Some(k) => {
                    proof {
                        lemma_text_gap(self@, n as int, k as int);
                    }
                    let ghost before = out@;
                    let open = copy_at(&self.partial_text, k);
                    out.append(open.as_str());
                    assert(out@ =~= before + self@.text_there(k as int));
                    if k == usize::MAX {
                        break;
                    }
                    n = k + 1;
                },
                None => {
                    proof {
                        lemma_text_gap(self@, n as int, usize::MAX + 1);
                    }
                    break;
                },
            }
        }
        out
    }
}

proof fn lemma_same_text(a: Accumulated, b: Accumulated, index: int)
    requires
        forall|i: int| 0 <= i < index ==> #[trigger] a.text_there(i) == b.text_there(i),
    ensures
        a.text_before(index) == b.text_before(index),
    decreases index,
{
    if index > 0 {
        lemma_same_text(a, b, index - 1);
        assert(a.text_there(index - 1) == b.text_there(index - 1));
    }
}

/// A block that is closed loses no text: what was shown of it before is shown of it
/// after. Only a block that takes the place of another with text in it changes that.
pub proof fn closing_a_block_keeps_the_text(acc: Accumulated, index: usize, input: json::JsonView)
    requires
        index < acc.blocks.len() ==> block_text(acc.blocks[index as int]).len() == 0,
    ensures
        acc.closed(index, input).text_so_far() == acc.text_so_far(),
{
    let after = acc.closed(index, input);
    assert forall|i: int| 0 <= i < usize::MAX + 1 implies #[trigger] acc.text_there(i)
        == after.text_there(i) by {
        assert(acc.text_there(i) =~= after.text_there(i));
    }
    lemma_same_text(acc, after, usize::MAX + 1);
}

impl Default for StreamAccumulator {
    fn default() -> (r: StreamAccumulator)
        ensures
            r@ == Accumulated::empty(),
    {
        StreamAccumulator::new()
    }
}

/// The kinds of partial text that a block can gather.
pub ghost enum Part {
    Text,
    Json,
    Thinking,
    Signature,
}

impl Accumulated {
    /// What the open block at `index` has gathered of one kind.
    pub open spec fn open_part(self, part: Part, index: usize) -> Seq<char> {
        match part {
            Part::Text => text_at(self.text, index),
            Part::Json => text_at(self.json, index),
            Part::Thinking => text_at(self.thinking, index),
            Part::Signature => text_at(self.signature, index),
        }
    }
}

/// What one event adds to the block at `index`.
pub open spec fn delta(part: Part, event: types::EventView, index: usize) -> Seq<char> {
    match (part, event) {
        (Part::Text, types::EventView::TextDelta { index: i, text }) if i == index => text,
        (Part::Json, types::EventView::InputJsonDelta { index: i, partial_json }) if i == index =>
            partial_json,
        (Part::Thinking, types::EventView::ThinkingDelta { index: i, thinking }) if i == index =>
            thinking,
        (Part::Signature, types::EventView::SignatureDelta { index: i, signature }) if i == index =>
            signature,
        _ => Seq::empty(),
    }
}

/// What a sequence of events adds to the block at `index`.
pub open spec fn deltas(part: Part, events: Seq<types::EventView>, index: usize) -> Seq<char>
    decreases events.len(),
{
    if events.len() == 0 {
        Seq::empty()
    } else {
        deltas(part, events.drop_last(), index) + delta(part, events.last(), index)
    }
}

/// None of the events closes the block at `index`.
pub open spec fn keeps_open(events: Seq<types::EventView>, index: usize) -> bool {
    forall|i: int|
        0 <= i < events.len() ==> #[trigger] events[i] != (types::EventView::ContentBlockStop {
            index,
        })
}

/// Taking in two sequences of events one after the other is taking in the one
/// followed by the other: it does not matter how a stream is cut.
pub proof fn accumulation_is_additive(
    acc: Accumulated,
    first: Seq<types::EventView>,
    second: Seq<types::EventView>,
)
    ensures
        acc.after_all(first + second) == acc.after_all(first).after_all(second),
    decreases second.len(),
{
    if second.len() == 0 {
        assert(first + second =~= first);
    } else {
        accumulation_is_additive(acc, first, second.drop_last());
        assert((first + second).drop_last() =~= first + second.drop_last());
    }
}

/// While a block is open it gathers exactly the deltas that name it, in their
/// order, whatever events of other blocks stand between them.
pub proof fn open_block_gathers_its_deltas(
    acc: Accumulated,
    events: Seq<types::EventView>,
    part: Part,
    index: usize,
)
    requires
        keeps_open(events, index),
    ensures
        acc.after_all(events).open_part(part, index) == acc.open_part(part, index) + deltas(
            part,
            events,
            index,
        ),
    decreases events.len(),
{
    if events.len() == 0 {
        assert(acc.open_part(part, index) + Seq::<char>::empty() =~= acc.open_part(part, index));
    } else {
        let rest = events.drop_last();
        assert(keeps_open(rest, index)) by {
            assert forall|i: int| 0 <= i < rest.len() implies #[trigger] rest[i] != (
            types::EventView::ContentBlockStop { index }) by {
                assert(rest[i] == events[i]);
            }
        }
        open_block_gathers_its_deltas(acc, rest, part, index);
        let before = acc.after_all(rest);
        let last = events.last();
        assert(events[events.len() - 1] == last);
        let gathered = deltas(part, rest, index);
        assert(before.after(last).open_part(part, index) =~= before.open_part(part, index) + delta(
            part,
            last,
            index,
        ));
        assert((acc.open_part(part, index) + gathered) + delta(part, last, index)
            =~= acc.open_part(part, index) + (gathered + delta(part, last, index)));
    }
}

/// The names of the kinds of block are distinct.
proof fn lemma_kinds_differ()
    ensures
        "text"@ != "tool_use"@,
        "text"@ != "thinking"@,
        "text"@ != "redacted_thinking"@,
        "tool_use"@ != "thinking"@,
        "tool_use"@ != "redacted_thinking"@,
        "thinking"@ != "redacted_thinking"@,
{
    reveal_strlit("text");
    reveal_strlit("tool_use");
    reveal_strlit("thinking");
    reveal_strlit("redacted_thinking");
    assert("text"@.len() == 4);
    assert("tool_use"@[1] == 'o');
    assert("thinking"@[1] == 'h');
    assert("tool_use"@.len() == 8);
    assert("redacted_thinking"@.len() == 17);
}

/// A text block holds the concatenation of its text deltas.
pub proof fn text_block_is_its_deltas(
    acc: Accumulated,
    events: Seq<types::EventView>,
    index: usize,
)
    requires
        keeps_open(events, index),
        text_at(acc.after_all(events).kinds, index) == "text"@,
    ensures
        acc.after_all(events).after(types::EventView::ContentBlockStop { index }).blocks[index as int]
            == (types::BlockView::Text {
            text: acc.open_part(Part::Text, index) + deltas(Part::Text, events, index),
        }),
{
    open_block_gathers_its_deltas(acc, events, Part::Text, index);
    lemma_kinds_differ();
}

/// A thinking block holds the concatenation of its thinking deltas and carries
/// the concatenation of its signature deltas.
pub proof fn thinking_block_carries_its_signature(
    acc: Accumulated,
    events: Seq<types::EventView>,
    index: usize,
)
    requires
        keeps_open(events, index),
        text_at(acc.after_all(events).kinds, index) == "thinking"@,
    ensures
        acc.after_all(events).after(types::EventView::ContentBlockStop { index }).blocks[index as int]
            == (types::BlockView::Thinking {
            thinking: acc.open_part(Part::Thinking, index) + deltas(Part::Thinking, events, index),
            signature: acc.open_part(Part::Signature, index) + deltas(
                Part::Signature,
                events,
                index,
            ),
        }),
{
    open_block_gathers_its_deltas(acc, events, Part::Thinking, index);
    open_block_gathers_its_deltas(acc, events, Part::Signature, index);
    lemma_kinds_differ();
}

/// The input of a tool call is what the concatenation of its argument deltas is
/// read as.
pub proof fn tool_call_reads_its_arguments(
    acc: Accumulated,
    events: Seq<types::EventView>,
    index: usize,
)
    requires
        keeps_open(events, index),
        text_at(acc.after_all(events).kinds, index) == "tool_use"@,
    ensures
        acc.after_all(events).after(types::EventView::ContentBlockStop { index }).blocks[index as int]
            == (types::BlockView::ToolUse {
            id: text_at(acc.after_all(events).ids, index),
            name: text_at(acc.after_all(events).names, index),
            input: arguments_of(
                acc.open_part(Part::Json, index) + deltas(Part::Json, events, index),
            ),
        }),
{
    open_block_gathers_its_deltas(acc, events, Part::Json, index);
}

/// The data of a redacted thinking block comes through unchanged.
pub proof fn redacted_thinking_is_preserved(acc: Accumulated, index: usize, data: Seq<char>)
    ensures
        acc.after(types::EventView::RedactedThinking { index, data }).after(
            types::EventView::ContentBlockStop { index },
        ).blocks[index as int] == (types::BlockView::RedactedThinking { data }),
{
    lemma_kinds_differ();
}

/// The accumulator has started exactly when a message start was among its events.
pub proof fn started_after_message_start(events: Seq<types::EventView>)
    ensures
        Accumulated::empty().after_all(events).message_id is Some <==> exists|i: int|
            0 <= i < events.len() && #[trigger] events[i] is MessageStart,
    decreases events.len(),
{
    if events.len() > 0 {
        let rest = events.drop_last();
        started_after_message_start(rest);
        assert(forall|i: int| 0 <= i < rest.len() ==> rest[i] == #[trigger] events[i]);
        assert(events[events.len() - 1] == events.last());
    }
}

/// Closing one block leaves every other complete block as it was.
pub proof fn other_blocks_are_kept(acc: Accumulated, event: types::EventView, i: int)
    requires
        0 <= i < acc.blocks.len(),
        event != (types::EventView::ContentBlockStop { index: i as usize }) || i > usize::MAX,
    ensures
        i < acc.after(event).blocks.len(),
        acc.after(event).blocks[i] == acc.blocks[i],
{
}

/// None of the events starts or closes the block at `index`.
pub open spec fn leaves_open(events: Seq<types::EventView>, index: usize) -> bool {
    forall|i: int|
        0 <= i < events.len() ==> match #[trigger] events[i] {
            types::EventView::ContentBlockStart { index: k, .. } => k != index,
            types::EventView::RedactedThinking { index: k, .. } => k != index,
            types::EventView::ContentBlockStop { index: k } => k != index,
            _ => true,
        }
}

proof fn lemma_start_is_kept(acc: Accumulated, events: Seq<types::EventView>, index: usize)
    requires
        leaves_open(events, index),
    ensures
        keeps_open(events, index),
        text_at(acc.after_all(events).kinds, index) == text_at(acc.kinds, index),
        text_at(acc.after_all(events).ids, index) == text_at(acc.ids, index),
        text_at(acc.after_all(events).names, index) == text_at(acc.names, index),
    decreases events.len(),
{
    assert forall|i: int| 0 <= i < events.len() implies #[trigger] events[i] != (
    types::EventView::ContentBlockStop { index }) by {}
    if events.len() > 0 {
        let rest = events.drop_last();
        assert forall|i: int| 0 <= i < rest.len() implies match #[trigger] rest[i] {
            types::EventView::ContentBlockStart { index: k, .. } => k != index,
            types::EventView::RedactedThinking { index: k, .. } => k != index,
            types::EventView::ContentBlockStop { index: k } => k != index,
            _ => true,
        } by {
            assert(rest[i] == events[i]);
        }
        lemma_start_is_kept(acc, rest, index);
        assert(events[events.len() - 1] == events.last());
    }
}

/// A call of a tool is put together from its parts: from its start come its id and its
/// name, and its input is what all of its argument deltas, one after another, read as,
/// whatever comes of other blocks meanwhile. It stands at its index.
pub proof fn calls_are_put_together(
    acc: Accumulated,
    index: usize,
    id: Seq<char>,
    name: Seq<char>,
    events: Seq<types::EventView>,
)
    requires
        !acc.json.contains_key(index),
        leaves_open(events, index),
    ensures
        ({
            let start = types::EventView::ContentBlockStart {
                index,
                block_type: "tool_use"@,
                id: Some(id),
                name: Some(name),
            };
            let after = acc.after(start).after_all(events).after(
                types::EventView::ContentBlockStop { index },
            );
            &&& index < after.blocks.len()
            &&& after.blocks[index as int] == (types::BlockView::ToolUse {
                id,
                name,
                input: match json::json_read(deltas(Part::Json, events, index)) {
                    Some(v) => v,
                    None => json::JsonView::Null,
                },
            })
        }),
{
    let start = types::EventView::ContentBlockStart {
        index,
        block_type: "tool_use"@,
        id: Some(id),
        name: Some(name),
    };
    let begun = acc.after(start);
    lemma_start_is_kept(begun, events, index);
    tool_call_reads_its_arguments(begun, events, index);
    assert(begun.open_part(Part::Json, index) + deltas(Part::Json, events, index) =~= deltas(
        Part::Json,
        events,
        index,
    ));
}

/// A block of text, and one of thinking, is put together from its deltas in their order,
/// and stands at its index.
pub proof fn texts_are_put_together(
    acc: Accumulated,
    index: usize,
    events: Seq<types::EventView>,
)
    requires
        !acc.text.contains_key(index),
        !acc.thinking.contains_key(index),
        !acc.signature.contains_key(index),
        leaves_open(events, index),
    ensures
        ({
            let start = types::EventView::ContentBlockStart {
                index,
                block_type: "text"@,
                id: None,
                name: None,
            };
            let after = acc.after(start).after_all(events).after(
                types::EventView::ContentBlockStop { index },
            );
            &&& index < after.blocks.len()
            &&& after.blocks[index as int] == (types::BlockView::Text {
                text: deltas(Part::Text, events, index),
            })
        }),
        ({
            let start = types::EventView::ContentBlockStart {
                index,
                block_type: "thinking"@,
                id: None,
                name: None,
            };
            let after = acc.after(start).after_all(events).after(
                types::EventView::ContentBlockStop { index },
            );
            &&& index < after.blocks.len()
            &&& after.blocks[index as int] == (types::BlockView::Thinking {
                thinking: deltas(Part::Thinking, events, index),
                signature: deltas(Part::Signature, events, index),
            })
        }),
{
    let text = acc.after(
        types::EventView::ContentBlockStart {
            index,
            block_type: "text"@,
            id: None,
            name: None,
        },
    );
    lemma_start_is_kept(text, events, index);
    text_block_is_its_deltas(text, events, index);
    assert(text.open_part(Part::Text, index) + deltas(Part::Text, events, index) =~= deltas(
        Part::Text,
        events,
        index,
    ));
    let thought = acc.after(
        types::EventView::ContentBlockStart {
            index,
            block_type: "thinking"@,
            id: None,
            name: None,
        },
    );
    lemma_start_is_kept(thought, events, index);
    thinking_block_carries_its_signature(thought, events, index);
    assert(thought.open_part(Part::Thinking, index) + deltas(Part::Thinking, events, index)
        =~= deltas(Part::Thinking, events, index));
    assert(thought.open_part(Part::Signature, index) + deltas(Part::Signature, events, index)
        =~= deltas(Part::Signature, events, index));
}

/// A message is known by its start, and its end tells why it stopped and what was used:
/// a reason stays until another is told, and usage adds up. The message that comes of it
/// is of the assistant, with the blocks that were gathered.
pub proof fn messages_are_put_together(
    acc: Accumulated,
    id: Seq<char>,
    model: Seq<char>,
    reason: StopReason,
    u: Usage,
)
    ensures
        ({
            let a = acc.after(types::EventView::MessageStart { id, model });
            &&& a.message().id == Some(id)
            &&& a.message().metadata is Some && a.message().metadata->0.model == Some(model)
            &&& a.blocks == acc.blocks
        }),
        ({
            let a = acc.after(
                types::EventView::MessageDelta { stop_reason: Some(reason), usage: Some(u) },
            );
            let b = a.after(types::EventView::MessageDelta { stop_reason: None, usage: None });
            &&& a.final_stop_reason() == reason && b.final_stop_reason() == reason
            &&& b.usage == a.usage && a.blocks == acc.blocks
            &&& acc.usage.input_tokens + u.input_tokens <= u64::MAX ==> a.usage.input_tokens
                == acc.usage.input_tokens + u.input_tokens
            &&& acc.usage.output_tokens + u.output_tokens <= u64::MAX ==> a.usage.output_tokens
                == acc.usage.output_tokens + u.output_tokens
        }),
        acc.message().role == Role::Assistant,
        acc.blocks.len() > 0 ==> acc.message().content == types::ContentView::Blocks(acc.blocks),
        Accumulated::empty().final_stop_reason() == StopReason::EndTurn,
        Accumulated::empty().usage.input_tokens == 0 && Accumulated::empty().usage.output_tokens
            == 0,
{
}

/// The response is the message that was put together, with its usage and its stop reason,
/// which is the end of the turn where none was told.
pub proof fn responses_are_what_was_put_together(
    acc: StreamAccumulator,
    r: Result<CompletionResponse, types::CerseiError>,
)
    requires
        call_ensures(StreamAccumulator::into_response, (acc,), r),
    ensures
        r is Ok,
        (r->Ok_0).message@ == acc@.message(),
        (r->Ok_0).usage == acc@.usage,
        acc@.stop_reason is Some ==> (r->Ok_0).stop_reason == acc@.stop_reason->0,
        acc@.stop_reason is None ==> (r->Ok_0).stop_reason == StopReason::EndTurn,
{
}

} // verus!
