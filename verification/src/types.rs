//! The conversation: messages and their content blocks, token usage, stream
//! events, requests and errors.
//!
//! Every type that holds text has a view in which the text is a `Seq<char>`.

use crate::json::{Json, JsonObject};
use crate::json;
use crate::text;
use vstd::prelude::*;
use vstd::string::*;

verus! {

/// Who a message is from.
#[derive(Clone, Copy, Debug, PartialEq, Eq, Structural)]
pub enum Role {
    User,
    Assistant,
    System,
}

/// Why the model stopped.
#[derive(Clone, Copy, Debug, PartialEq, Eq, Structural)]
pub enum StopReason {
    EndTurn,
    MaxTokens,
    ToolUse,
    StopSequence,
}

/// Tokens spent.
#[derive(Clone, Copy, Debug, PartialEq, Eq, Structural)]
pub struct Usage {
    pub input_tokens: u64,
    pub output_tokens: u64,
    pub total_tokens: u64,
}

/// `a + b`, or the largest count where the sum is larger.
pub open spec fn count_sum(a: u64, b: u64) -> u64 {
    if a + b > u64::MAX {
        u64::MAX
    } else {
        (a + b) as u64
    }
}

fn add_counts(a: u64, b: u64) -> (r: u64)
    ensures
        r == count_sum(a, b),
{
    if a > u64::MAX - b {
        u64::MAX
    } else {
        a + b
    }
}

impl Usage {
    /// No tokens.
    pub open spec fn zero() -> Usage {
        Usage { input_tokens: 0, output_tokens: 0, total_tokens: 0 }
    }

    /// Each count is the sum of the two counts.
    pub open spec fn plus(self, other: Usage) -> Usage {
        Usage {
            input_tokens: count_sum(self.input_tokens, other.input_tokens),
            output_tokens: count_sum(self.output_tokens, other.output_tokens),
            total_tokens: count_sum(self.total_tokens, other.total_tokens),
        }
    }

    /// Adds the counts of `other`.
    pub fn merge(&mut self, other: &Usage)
        ensures
            *final(self) == old(self).plus(*other),
    {
        self.input_tokens = add_counts(self.input_tokens, other.input_tokens);
        self.output_tokens = add_counts(self.output_tokens, other.output_tokens);
        self.total_tokens = add_counts(self.total_tokens, other.total_tokens);
    }
}

impl Default for Usage {
    fn default() -> (r: Usage)
        ensures
            r == Usage::zero(),
    {
        Usage { input_tokens: 0, output_tokens: 0, total_tokens: 0 }
    }
}

/// Where the bytes of an image or of a document are.
#[derive(Debug, PartialEq, Eq)]
pub struct MediaSource {
    pub source_type: String,
    pub media_type: Option<String>,
    pub data: Option<String>,
    pub url: Option<String>,
}

/// The text of an optional string.
pub open spec fn opt_view(s: Option<String>) -> Option<Seq<char>> {
    match s {
        Some(t) => Some(t@),
        None => None,
    }
}

#[verifier::ext_equal]
pub ghost struct MediaView {
    pub source_type: Seq<char>,
    pub media_type: Option<Seq<char>>,
    pub data: Option<Seq<char>>,
    pub url: Option<Seq<char>>,
}

impl View for MediaSource {
    type V = MediaView;

    open spec fn view(&self) -> MediaView {
        MediaView {
            source_type: self.source_type@,
            media_type: opt_view(self.media_type),
            data: opt_view(self.data),
            url: opt_view(self.url),
        }
    }
}

/// What a tool gave back.
#[derive(Debug, PartialEq)]
pub enum ToolResultContent {
    Text(String),
    Blocks(Vec<ContentBlock>),
}

/// One block of a message.
#[derive(Debug, PartialEq)]
pub enum ContentBlock {
    Text { text: String },
    Image { source: MediaSource },
    Document { source: MediaSource, title: Option<String>, context: Option<String> },
    ToolUse { id: String, name: String, input: Json },
    ToolResult { tool_use_id: String, content: ToolResultContent, is_error: Option<bool> },
    Thinking { thinking: String, signature: String },
    RedactedThinking { data: String },
}

#[verifier::ext_equal]
pub ghost enum ResultView {
    Text(Seq<char>),
    Blocks(Seq<BlockView>),
}

#[verifier::ext_equal]
pub ghost enum BlockView {
    Text { text: Seq<char> },
    Image { source: MediaView },
    Document { source: MediaView, title: Option<Seq<char>>, context: Option<Seq<char>> },
    ToolUse { id: Seq<char>, name: Seq<char>, input: json::JsonView },
    ToolResult { tool_use_id: Seq<char>, content: ResultView, is_error: Option<bool> },
    Thinking { thinking: Seq<char>, signature: Seq<char> },
    RedactedThinking { data: Seq<char> },
}

/// The views of a list of blocks.
pub open spec fn blocks_view(s: Seq<ContentBlock>) -> Seq<BlockView>
    decreases s,
{
    if s.len() == 0 {
        Seq::empty()
    } else {
        blocks_view(s.drop_last()).push(s.last().view())
    }
}

impl ToolResultContent {
    pub open spec fn view(&self) -> ResultView
        decreases self,
    {
        match self {
            ToolResultContent::Text(t) => ResultView::Text(t@),
            ToolResultContent::Blocks(b) => ResultView::Blocks(blocks_view(b@)),
        }
    }
}

impl ContentBlock {
    pub open spec fn view(&self) -> BlockView
        decreases self,
    {
        match self {
            ContentBlock::Text { text } => BlockView::Text { text: text@ },
            ContentBlock::Image { source } => BlockView::Image { source: source@ },
            ContentBlock::Document { source, title, context } => BlockView::Document {
                source: source@,
                title: opt_view(*title),
                context: opt_view(*context),
            },
            ContentBlock::ToolUse { id, name, input } => BlockView::ToolUse {
                id: id@,
                name: name@,
                input: input@,
            },
            ContentBlock::ToolResult { tool_use_id, content, is_error } => BlockView::ToolResult {
                tool_use_id: tool_use_id@,
                content: content.view(),
                is_error: *is_error,
            },
            ContentBlock::Thinking { thinking, signature } => BlockView::Thinking {
                thinking: thinking@,
                signature: signature@,
            },
            ContentBlock::RedactedThinking { data } => BlockView::RedactedThinking { data: data@ },
        }
    }
}

pub proof fn lemma_blocks_view(s: Seq<ContentBlock>)
    ensures
        blocks_view(s).len() == s.len(),
        forall|i: int| 0 <= i < s.len() ==> #[trigger] blocks_view(s)[i] == s[i]@,
    decreases s.len(),
{
    if s.len() > 0 {
        lemma_blocks_view(s.drop_last());
    }
}

/// The content of a message.
#[derive(Debug, PartialEq)]
pub enum MessageContent {
    Text(String),
    Blocks(Vec<ContentBlock>),
}

/// What is known about the response that a message came from.
#[derive(Debug, PartialEq)]
pub struct MessageMetadata {
    pub model: Option<String>,
    pub usage: Option<Usage>,
    pub stop_reason: Option<StopReason>,
    pub provider_data: Json,
}

/// One message of the conversation.
#[derive(Debug, PartialEq)]
pub struct Message {
    pub role: Role,
    pub content: MessageContent,
    pub id: Option<String>,
    pub metadata: Option<MessageMetadata>,
}

#[verifier::ext_equal]
pub ghost enum ContentView {
    Text(Seq<char>),
    Blocks(Seq<BlockView>),
}

#[verifier::ext_equal]
pub ghost struct MetadataView {
    pub model: Option<Seq<char>>,
    pub usage: Option<Usage>,
    pub stop_reason: Option<StopReason>,
    pub provider_data: json::JsonView,
}

#[verifier::ext_equal]
pub ghost struct MessageView {
    pub role: Role,
    pub content: ContentView,
    pub id: Option<Seq<char>>,
    pub metadata: Option<MetadataView>,
}

impl View for MessageContent {
    type V = ContentView;

    open spec fn view(&self) -> ContentView {
        match self {
            MessageContent::Text(t) => ContentView::Text(t@),
            MessageContent::Blocks(b) => ContentView::Blocks(blocks_view(b@)),
        }
    }
}

impl View for MessageMetadata {
    type V = MetadataView;

    open spec fn view(&self) -> MetadataView {
        MetadataView {
            model: opt_view(self.model),
            usage: self.usage,
            stop_reason: self.stop_reason,
            provider_data: self.provider_data@,
        }
    }
}

impl View for Message {
    type V = MessageView;

    open spec fn view(&self) -> MessageView {
        MessageView {
            role: self.role,
            content: self.content@,
            id: opt_view(self.id),
            metadata: match self.metadata {
                Some(m) => Some(m@),
                None => None,
            },
        }
    }
}

/// The views of a list of messages.
pub open spec fn messages_view(s: Seq<Message>) -> Seq<MessageView> {
    Seq::new(s.len(), |i: int| s[i]@)
}

impl MessageView {
    /// A message of plain text.
    pub open spec fn plain(role: Role, text: Seq<char>) -> MessageView {
        MessageView { role, content: ContentView::Text(text), id: None, metadata: None }
    }
}

/// The texts of the text blocks, one after another.
pub open spec fn blocks_text(s: Seq<BlockView>) -> Seq<char>
    decreases s.len(),
{
    if s.len() == 0 {
        Seq::empty()
    } else {
        match s.last() {
            BlockView::Text { text } => blocks_text(s.drop_last()) + text,
            _ => blocks_text(s.drop_last()),
        }
    }
}

impl ContentView {
    /// All the text of the content.
    pub open spec fn all_text(self) -> Seq<char> {
        match self {
            ContentView::Text(t) => t,
            ContentView::Blocks(b) => blocks_text(b),
        }
    }

    /// The text, or that of the first text block.
    pub open spec fn first_text(self) -> Option<Seq<char>> {
        match self {
            ContentView::Text(t) => Some(t),
            ContentView::Blocks(b) => first_block_text(b),
        }
    }
}

/// The text of the first text block.
pub open spec fn first_block_text(s: Seq<BlockView>) -> Option<Seq<char>>
    decreases s.len(),
{
    if s.len() == 0 {
        None
    } else {
        match s[0] {
            BlockView::Text { text } => Some(text),
            _ => first_block_text(s.skip(1)),
        }
    }
}

/// The texts of the text blocks of `blocks`, one after another.
pub fn text_of_blocks(blocks: &Vec<ContentBlock>) -> (r: String)
    ensures
        r@ == blocks_text(blocks_view(blocks@)),
{
    let mut out = String::new();
    let mut i: usize = 0;
    let ghost all = blocks_view(blocks@);
    proof {
        lemma_blocks_view(blocks@);
    }
    assert(all.take(0) =~= Seq::empty());
    while i < blocks.len()
        invariant
            i <= blocks@.len(),
            all.len() == blocks@.len(),
            forall|j: int| 0 <= j < blocks@.len() ==> #[trigger] all[j] == blocks@[j]@,
            out@ == blocks_text(all.take(i as int)),
        decreases blocks@.len() - i,
    {
        assert(all.take(i + 1).drop_last() =~= all.take(i as int));
        assert(all.take(i + 1).last() == blocks@[i as int]@);
        if let ContentBlock::Text { text } = &blocks[i] {
            out.append(text.as_str());
        }
        i = i + 1;
    }
    assert(all.take(i as int) =~= all);
    out
}

impl Message {
    /// A user message of plain text.
    pub fn user(text: &str) -> (r: Message)
        ensures
            r@ == MessageView::plain(Role::User, text@),
    {
        Message {
            role: Role::User,
            content: MessageContent::Text(text.to_string()),
            id: None,
            metadata: None,
        }
    }

    /// An assistant message of plain text.
    pub fn assistant(text: &str) -> (r: Message)
        ensures
            r@ == MessageView::plain(Role::Assistant, text@),
    {
        Message {
            role: Role::Assistant,
            content: MessageContent::Text(text.to_string()),
            id: None,
            metadata: None,
        }
    }

    /// A user message of blocks.
    pub fn user_blocks(blocks: Vec<ContentBlock>) -> (r: Message)
        ensures
            r.role == Role::User,
            r.content == MessageContent::Blocks(blocks),
            r.id is None,
            r.metadata is None,
    {
        Message {
            role: Role::User,
            content: MessageContent::Blocks(blocks),
            id: None,
            metadata: None,
        }
    }

    /// All the text of the message.
    pub fn get_all_text(&self) -> (r: String)
        ensures
            r@ == self@.content.all_text(),
    {
        match &self.content {
            MessageContent::Text(t) => t.clone(),
            MessageContent::Blocks(b) => text_of_blocks(b),
        }
    }

    /// The text, or that of the first text block.
    pub fn get_text(&self) -> (r: Option<&str>)
        ensures
            match r {
                Some(t) => self@.content.first_text() == Some(t@),
                None => self@.content.first_text() is None,
            },
    {
        match &self.content {
            MessageContent::Text(t) => Some(t.as_str()),
            MessageContent::Blocks(b) => {
                let mut i: usize = 0;
                let ghost all = blocks_view(b@);
                proof {
                    lemma_blocks_view(b@);
                }
                assert(all.skip(0) =~= all);
                while i < b.len()
                    invariant
                        i <= b@.len(),
                        all.len() == b@.len(),
                        forall|j: int| 0 <= j < b@.len() ==> #[trigger] all[j] == b@[j]@,
                        first_block_text(all) == first_block_text(all.skip(i as int)),
                        self@.content == ContentView::Blocks(all),
                    decreases b@.len() - i,
                {
                    assert(all.skip(i as int)[0] == all[i as int]);
                    if let ContentBlock::Text { text } = &b[i] {
                        return Some(text.as_str());
                    }
                    assert(all.skip(i as int).skip(1) =~= all.skip(i + 1));
                    i = i + 1;
                }
                None
            },
        }
    }
}

/// An event of a response stream.
#[derive(Clone, Debug, PartialEq)]
pub enum StreamEvent {
    MessageStart { id: String, model: String },
    ContentBlockStart { index: usize, block_type: String, id: Option<String>, name: Option<String> },
    TextDelta { index: usize, text: String },
    InputJsonDelta { index: usize, partial_json: String },
    ThinkingDelta { index: usize, thinking: String },
    SignatureDelta { index: usize, signature: String },
    RedactedThinking { index: usize, data: String },
    ContentBlockStop { index: usize },
    MessageDelta { stop_reason: Option<StopReason>, usage: Option<Usage> },
    MessageStop,
    Ping,
    Error { message: String, kind: StreamErrorKind },
}

/// What kind of failure a stream reports.
#[derive(Clone, Copy, Debug, PartialEq, Eq, Structural)]
pub enum StreamErrorKind {
    Http { status: u16 },
    Transport,
    Provider,
}

#[verifier::ext_equal]
pub ghost enum EventView {
    MessageStart { id: Seq<char>, model: Seq<char> },
    ContentBlockStart {
        index: usize,
        block_type: Seq<char>,
        id: Option<Seq<char>>,
        name: Option<Seq<char>>,
    },
    TextDelta { index: usize, text: Seq<char> },
    InputJsonDelta { index: usize, partial_json: Seq<char> },
    ThinkingDelta { index: usize, thinking: Seq<char> },
    SignatureDelta { index: usize, signature: Seq<char> },
    RedactedThinking { index: usize, data: Seq<char> },
    ContentBlockStop { index: usize },
    MessageDelta { stop_reason: Option<StopReason>, usage: Option<Usage> },
    MessageStop,
    Ping,
    Error { message: Seq<char>, kind: StreamErrorKind },
}

impl View for StreamEvent {
    type V = EventView;

    open spec fn view(&self) -> EventView {
        match self {
            StreamEvent::MessageStart { id, model } => EventView::MessageStart {
                id: id@,
                model: model@,
            },
            StreamEvent::ContentBlockStart { index, block_type, id, name } => {
                EventView::ContentBlockStart {
                    index: *index,
                    block_type: block_type@,
                    id: opt_view(*id),
                    name: opt_view(*name),
                }
            },
            StreamEvent::TextDelta { index, text } => EventView::TextDelta {
                index: *index,
                text: text@,
            },
            StreamEvent::InputJsonDelta { index, partial_json } => EventView::InputJsonDelta {
                index: *index,
                partial_json: partial_json@,
            },
            StreamEvent::ThinkingDelta { index, thinking } => EventView::ThinkingDelta {
                index: *index,
                thinking: thinking@,
            },
            StreamEvent::SignatureDelta { index, signature } => EventView::SignatureDelta {
                index: *index,
                signature: signature@,
            },
            StreamEvent::RedactedThinking { index, data } => EventView::RedactedThinking {
                index: *index,
                data: data@,
            },
            StreamEvent::ContentBlockStop { index } => EventView::ContentBlockStop { index: *index },
            StreamEvent::MessageDelta { stop_reason, usage } => EventView::MessageDelta {
                stop_reason: *stop_reason,
                usage: *usage,
            },
            StreamEvent::MessageStop => EventView::MessageStop,
            StreamEvent::Ping => EventView::Ping,
            StreamEvent::Error { message, kind } => EventView::Error {
                message: message@,
                kind: *kind,
            },
        }
    }
}

/// The views of a list of stream events.
pub open spec fn events_view(s: Seq<StreamEvent>) -> Seq<EventView> {
    Seq::new(s.len(), |i: int| s[i]@)
}

/// A tool as the model is told of it.
#[derive(Clone, Debug, PartialEq)]
pub struct ToolDefinition {
    pub name: String,
    pub description: String,
    pub input_schema: Json,
}

/// Options that only some providers know.
#[derive(Clone, Debug, PartialEq)]
pub struct ProviderOptions {
    pub values: JsonObject,
}

impl ProviderOptions {
    pub open spec fn view(&self) -> Map<Seq<char>, json::JsonView> {
        self.values@
    }

    /// No options.
    pub fn new() -> (r: ProviderOptions)
        ensures
            r@ == Map::<Seq<char>, json::JsonView>::empty(),
    {
        ProviderOptions { values: JsonObject::new() }
    }

    /// Sets an option.
    pub fn set(&mut self, key: &str, value: Json)
        ensures
            final(self)@ == old(self)@.insert(key@, value@),
    {
        self.values.set(key, value);
    }

    /// The option `key`, where it is an unsigned number of 32 bits.
    pub fn get_u32(&self, key: &str) -> (r: Option<u32>)
        ensures
            r == option_u32(self@, key@),
    {
        match self.values.get(key) {
            Some(j) => match j.as_u64() {
                Some(n) => if n <= u32::MAX as u64 {
                    Some(n as u32)
                } else {
                    None
                },
                None => None,
            },
            None => None,
        }
    }

    /// The option `key`, where it is a text.
    pub fn get_text(&self, key: &str) -> (r: Option<String>)
        ensures
            match r {
                Some(s) => self@.contains_key(key@) && self@[key@] == json::JsonView::Str(s@),
                None => !(self@.contains_key(key@) && self@[key@] is Str),
            },
    {
        match self.values.get(key) {
            Some(j) => match j.as_str() {
                Some(s) => Some(s.to_string()),
                None => None,
            },
            None => None,
        }
    }

    /// Whether the option `key` is set to true.
    pub fn is_set(&self, key: &str) -> (r: bool)
        ensures
            r == (self@.contains_key(key@) && self@[key@] == json::JsonView::Bool(true)),
    {
        match self.values.get(key) {
            Some(j) => match j.as_bool() {
                Some(b) => b,
                None => false,
            },
            None => false,
        }
    }
}

/// What a provider is asked. The temperature is a JSON number.
#[derive(Clone, Debug, PartialEq)]
pub struct CompletionRequest {
    pub model: String,
    pub messages: Vec<Message>,
    pub system: Option<String>,
    pub tools: Vec<ToolDefinition>,
    pub max_tokens: u32,
    pub temperature: Option<Json>,
    pub stop_sequences: Vec<String>,
    pub options: ProviderOptions,
}

#[verifier::ext_equal]
pub ghost struct ToolView {
    pub name: Seq<char>,
    pub description: Seq<char>,
    pub input_schema: json::JsonView,
}

impl View for ToolDefinition {
    type V = ToolView;

    open spec fn view(&self) -> ToolView {
        ToolView {
            name: self.name@,
            description: self.description@,
            input_schema: self.input_schema@,
        }
    }
}

/// The views of a list of tools.
pub open spec fn tools_view(s: Seq<ToolDefinition>) -> Seq<ToolView> {
    Seq::new(s.len(), |i: int| s[i]@)
}

#[verifier::ext_equal]
pub ghost struct RequestView {
    pub model: Seq<char>,
    pub messages: Seq<MessageView>,
    pub system: Option<Seq<char>>,
    pub tools: Seq<ToolView>,
    pub max_tokens: u32,
    pub temperature: Option<json::JsonView>,
    pub stop_sequences: Seq<Seq<char>>,
    pub options: Map<Seq<char>, json::JsonView>,
}

impl View for CompletionRequest {
    type V = RequestView;

    open spec fn view(&self) -> RequestView {
        RequestView {
            model: self.model@,
            messages: messages_view(self.messages@),
            system: opt_view(self.system),
            tools: tools_view(self.tools@),
            max_tokens: self.max_tokens,
            temperature: match self.temperature {
                Some(t) => Some(t@),
                None => None,
            },
            stop_sequences: text::views(self.stop_sequences@),
            options: self.options@,
        }
    }
}

/// The option `key` as an unsigned number of 32 bits.
pub open spec fn option_u32(options: Map<Seq<char>, json::JsonView>, key: Seq<char>) -> Option<u32> {
    if options.contains_key(key) {
        match options[key].as_u64() {
            Some(n) if n <= u32::MAX => Some(n as u32),
            _ => None,
        }
    } else {
        None
    }
}

/// What a provider answered.
#[derive(Clone, Debug, PartialEq)]
pub struct CompletionResponse {
    pub message: Message,
    pub usage: Usage,
    pub stop_reason: StopReason,
}

/// What a provider can do.
#[derive(Clone, Copy, Debug, PartialEq, Eq, Structural)]
pub struct ProviderCapabilities {
    pub streaming: bool,
    pub tool_use: bool,
    pub vision: bool,
    pub thinking: bool,
    pub system_prompt: bool,
    pub caching: bool,
}

/// Why a run or a request failed.
#[derive(Clone, Debug, PartialEq)]
pub enum CerseiError {
    Auth(String),
    Config(String),
    Provider(String),
    Http { status: u16, message: String },
    Transport(String),
    Memory(String),
    Tool(String),
    Cancelled,
}

impl CerseiError {
    /// Another attempt may succeed: the request did not get through, or the
    /// server said that it is overloaded or failed.
    pub open spec fn retryable(&self) -> bool {
        match self {
            CerseiError::Transport(_) => true,
            CerseiError::Http { status, .. } => *status == 429 || *status >= 500,
            _ => false,
        }
    }

    /// Whether another attempt may succeed.
    pub fn is_retryable(&self) -> (r: bool)
        ensures
            r == self.retryable(),
    {
        match self {
            CerseiError::Transport(_) => true,
            CerseiError::Http { status, .. } => *status == 429 || *status >= 500,
            _ => false,
        }
    }
}

/// The error of a kind, with a message.
pub open spec fn error_of(kind: StreamErrorKind, message: String) -> CerseiError {
    match kind {
        StreamErrorKind::Http { status } => CerseiError::Http { status, message },
        StreamErrorKind::Transport => CerseiError::Transport(message),
        StreamErrorKind::Provider => CerseiError::Provider(message),
    }
}

impl StreamErrorKind {
    /// The error of this kind with `message`.
    pub fn into_error(self, message: String) -> (r: CerseiError)
        ensures
            r == error_of(self, message),
    {
        match self {
            StreamErrorKind::Http { status } => CerseiError::Http { status, message },
            StreamErrorKind::Transport => CerseiError::Transport(message),
            StreamErrorKind::Provider => CerseiError::Provider(message),
        }
    }
}

/// A copy of an optional string.
pub fn copy_opt(s: &Option<String>) -> (r: Option<String>)
    ensures
        opt_view(r) == opt_view(*s),
{
    match s {
        Some(t) => Some(t.clone()),
        None => None,
    }
}

impl Clone for MediaSource {
    fn clone(&self) -> (r: MediaSource)
        ensures
            r@ == self@,
    {
        MediaSource {
            source_type: self.source_type.clone(),
            media_type: copy_opt(&self.media_type),
            data: copy_opt(&self.data),
            url: copy_opt(&self.url),
        }
    }
}

impl ContentBlock {
    /// A copy of this block.
    pub fn copy(&self) -> (r: ContentBlock)
        ensures
            r@ == self@,
        decreases self,
    {
        match self {
            ContentBlock::Text { text } => ContentBlock::Text { text: text.clone() },
            ContentBlock::Image { source } => ContentBlock::Image { source: source.clone() },
            ContentBlock::Document { source, title, context } => ContentBlock::Document {
                source: source.clone(),
                title: copy_opt(title),
                context: copy_opt(context),
            },
            ContentBlock::ToolUse { id, name, input } => ContentBlock::ToolUse {
                id: id.clone(),
                name: name.clone(),
                input: input.copy(),
            },
            ContentBlock::ToolResult { tool_use_id, content, is_error } => {
                let content = match content {
                    ToolResultContent::Text(t) => ToolResultContent::Text(t.clone()),
                    ToolResultContent::Blocks(b) => {
                        let mut out: Vec<ContentBlock> = Vec::new();
                        let mut i: usize = 0;
                        while i < b.len()
                            invariant
                                i <= b@.len(),
                                self matches ContentBlock::ToolResult { content: c, .. }
                                    && c matches ToolResultContent::Blocks(d) && d == b,
                                blocks_view(out@) == blocks_view(b@.take(i as int)),
                            decreases b@.len() - i,
                        {
                            let c = b[i].copy();
                            let ghost before = out@;
                            out.push(c);
                            proof {
                                assert(out@.drop_last() =~= before);
                                assert(b@.take(i + 1).drop_last() =~= b@.take(i as int));
                            }
                            i = i + 1;
                        }
                        assert(b@.take(i as int) =~= b@);
                        ToolResultContent::Blocks(out)
                    },
                };
                ContentBlock::ToolResult {
                    tool_use_id: tool_use_id.clone(),
                    content,
                    is_error: *is_error,
                }
            },
            ContentBlock::Thinking { thinking, signature } => ContentBlock::Thinking {
                thinking: thinking.clone(),
                signature: signature.clone(),
            },
            ContentBlock::RedactedThinking { data } => ContentBlock::RedactedThinking {
                data: data.clone(),
            },
        }
    }
}

impl Clone for ContentBlock {
    fn clone(&self) -> (r: ContentBlock)
        ensures
            r@ == self@,
    {
        self.copy()
    }
}

/// A copy of a list of blocks.
pub fn copy_blocks(b: &Vec<ContentBlock>) -> (r: Vec<ContentBlock>)
    ensures
        blocks_view(r@) == blocks_view(b@),
{
    let mut out: Vec<ContentBlock> = Vec::new();
    let mut i: usize = 0;
    while i < b.len()
        invariant
            i <= b@.len(),
            blocks_view(out@) == blocks_view(b@.take(i as int)),
        decreases b@.len() - i,
    {
        let c = b[i].copy();
        let ghost before = out@;
        out.push(c);
        proof {
            assert(out@.drop_last() =~= before);
            assert(b@.take(i + 1).drop_last() =~= b@.take(i as int));
        }
        i = i + 1;
    }
    assert(b@.take(i as int) =~= b@);
    out
}

impl Clone for MessageMetadata {
    fn clone(&self) -> (r: MessageMetadata)
        ensures
            r@ == self@,
    {
        MessageMetadata {
            model: copy_opt(&self.model),
            usage: self.usage,
            stop_reason: self.stop_reason,
            provider_data: self.provider_data.copy(),
        }
    }
}

impl Clone for Message {
    fn clone(&self) -> (r: Message)
        ensures
            r@ == self@,
    {
        let r = Message {
            role: self.role,
            content: match &self.content {
                MessageContent::Text(t) => MessageContent::Text(t.clone()),
                MessageContent::Blocks(b) => MessageContent::Blocks(copy_blocks(b)),
            },
            id: copy_opt(&self.id),
            metadata: match &self.metadata {
                Some(m) => Some(m.clone()),
                None => None,
            },
        };
        r
    }
}

/// A copy of a list of messages.
pub fn copy_messages(m: &Vec<Message>) -> (r: Vec<Message>)
    ensures
        messages_view(r@) == messages_view(m@),
{
    let mut out: Vec<Message> = Vec::new();
    let mut i: usize = 0;
    while i < m.len()
        invariant
            i <= m@.len(),
            out@.len() == i,
            forall|j: int| 0 <= j < i ==> #[trigger] out@[j]@ == m@[j]@,
        decreases m@.len() - i,
    {
        out.push(m[i].clone());
        i = i + 1;
    }
    assert(messages_view(out@) =~= messages_view(m@));
    out
}

/// The text of blocks is that of the text blocks among them, one after another and
/// nothing else.
pub proof fn texts_of_blocks_follow_each_other(a: Seq<BlockView>, b: Seq<BlockView>, text: Seq<char>)
    ensures
        blocks_text(a + b) == blocks_text(a) + blocks_text(b),
        blocks_text(seq![BlockView::Text { text }]) == text,
        (forall|i: int| 0 <= i < a.len() ==> !((#[trigger] a[i]) is Text)) ==> blocks_text(a)
            == Seq::<char>::empty(),
    decreases b.len(), a.len(),
{
    let one = seq![BlockView::Text { text }];
    assert(one.drop_last() =~= Seq::<BlockView>::empty());
    assert(blocks_text(one.drop_last()) == Seq::<char>::empty());
    assert(blocks_text(one) =~= text);
    if a.len() > 0 {
        let rest = a.drop_last();
        texts_of_blocks_follow_each_other(rest, Seq::empty(), text);
        if forall|i: int| 0 <= i < a.len() ==> !((#[trigger] a[i]) is Text) {
            assert forall|i: int| 0 <= i < rest.len() implies !((#[trigger] rest[i]) is Text) by {
                assert(rest[i] == a[i]);
            }
            assert(!(a[a.len() - 1] is Text));
        }
    }
    if b.len() == 0 {
        assert(a + b =~= a);
        assert(blocks_text(a) + blocks_text(b) =~= blocks_text(a));
    } else {
        texts_of_blocks_follow_each_other(a, b.drop_last(), text);
        assert((a + b).drop_last() =~= a + b.drop_last());
        assert((a + b).last() == b.last());
        if let BlockView::Text { text: t } = b.last() {
            assert((blocks_text(a) + blocks_text(b.drop_last())) + t =~= blocks_text(a) + (
            blocks_text(b.drop_last()) + t));
        }
    }
}

/// Usages add up count by count, in either order, and a count that is full stays full.
pub proof fn usages_add_up(a: Usage, b: Usage)
    ensures
        a.input_tokens + b.input_tokens <= u64::MAX ==> a.plus(b).input_tokens == a.input_tokens
            + b.input_tokens,
        a.output_tokens + b.output_tokens <= u64::MAX ==> a.plus(b).output_tokens
            == a.output_tokens + b.output_tokens,
        a.total_tokens + b.total_tokens <= u64::MAX ==> a.plus(b).total_tokens == a.total_tokens
            + b.total_tokens,
        a.input_tokens + b.input_tokens > u64::MAX ==> a.plus(b).input_tokens == u64::MAX,
        a.output_tokens + b.output_tokens > u64::MAX ==> a.plus(b).output_tokens == u64::MAX,
        a.total_tokens + b.total_tokens > u64::MAX ==> a.plus(b).total_tokens == u64::MAX,
        a.plus(b) == b.plus(a),
        a.plus(Usage::zero()) == a,
        Usage::zero().input_tokens == 0 && Usage::zero().output_tokens == 0
            && Usage::zero().total_tokens == 0,
{
}

/// The text of a content is the text itself, or that of the first block that is a text.
pub proof fn the_first_text_block_counts(blocks: Seq<BlockView>, i: int, text: Seq<char>)
    requires
        0 <= i <= blocks.len(),
        forall|j: int| 0 <= j < i ==> !((#[trigger] blocks[j]) is Text),
        i < blocks.len() ==> blocks[i] == (BlockView::Text { text }),
    ensures
        i < blocks.len() ==> ContentView::Blocks(blocks).first_text() == Some(text),
        i == blocks.len() ==> ContentView::Blocks(blocks).first_text() is None,
        ContentView::Text(text).first_text() == Some(text),
        ContentView::Text(text).all_text() == text,
        ContentView::Blocks(blocks).all_text() == blocks_text(blocks),
    decreases i,
{
    if i > 0 {
        let rest = blocks.skip(1);
        assert(!(blocks[0] is Text));
        assert forall|j: int| 0 <= j < i - 1 implies !((#[trigger] rest[j]) is Text) by {
            assert(rest[j] == blocks[j + 1]);
        }
        if i < blocks.len() {
            assert(rest[i - 1] == blocks[i]);
        }
        the_first_text_block_counts(rest, i - 1, text);
    }
}

/// Another attempt may succeed where the request did not get through or the server is
/// overloaded or failed, and never where the request itself was refused.
pub proof fn attempts_may_be_repeated(message: String, status: u16)
    ensures
        CerseiError::Transport(message).retryable(),
        status == 429 || status >= 500 ==> (CerseiError::Http { status, message }).retryable(),
        status < 500 && status != 429 ==> !(CerseiError::Http { status, message }).retryable(),
        !CerseiError::Auth(message).retryable(),
        !CerseiError::Config(message).retryable(),
        !CerseiError::Provider(message).retryable(),
        !CerseiError::Tool(message).retryable(),
{
}

/// An error of a stream keeps its kind, its status and its message.
pub proof fn errors_keep_their_kind(message: String, status: u16)
    ensures
        error_of(StreamErrorKind::Http { status }, message) == (CerseiError::Http {
            status,
            message,
        }),
        error_of(StreamErrorKind::Transport, message) == CerseiError::Transport(message),
        error_of(StreamErrorKind::Provider, message) == CerseiError::Provider(message),
{
}

/// An option is the number that was set for it, where it fits 32 bits.
pub proof fn options_are_read_as_they_were_set(
    options: Map<Seq<char>, json::JsonView>,
    key: Seq<char>,
    n: u64,
)
    ensures
        n <= u32::MAX ==> option_u32(options.insert(key, json::JsonView::UInt(n)), key) == Some(
            n as u32,
        ),
        n > u32::MAX ==> option_u32(options.insert(key, json::JsonView::UInt(n)), key) is None,
        !options.contains_key(key) ==> option_u32(options, key) is None,
{
}

/// A request shows all that it holds: the model, the limit, the messages and the tools in
/// their order.
pub proof fn requests_show_what_they_hold(request: CompletionRequest, i: int)
    ensures
        request@.model == request.model@,
        request@.max_tokens == request.max_tokens,
        request@.messages.len() == request.messages@.len(),
        request@.tools.len() == request.tools@.len(),
        request@.stop_sequences.len() == request.stop_sequences@.len(),
        request@.options == request.options.values@,
        request.system is Some ==> request@.system == Some(request.system->0@),
        request.system is None ==> request@.system is None,
        request.temperature is Some ==> request@.temperature == Some(request.temperature->0@),
        request.temperature is None ==> request@.temperature is None,
        0 <= i < request.tools@.len() ==> request@.tools[i].name == request.tools@[i].name@
            && request@.tools[i].description == request.tools@[i].description@
            && request@.tools[i].input_schema == request.tools@[i].input_schema@,
        0 <= i < request.messages@.len() ==> request@.messages[i].role
            == request.messages@[i].role && request@.messages[i].content
            == request.messages@[i].content@,
        0 <= i < request.stop_sequences@.len() ==> request@.stop_sequences[i]
            == request.stop_sequences@[i]@,
{
}

/// A content shows its text, or all its blocks in their order.
pub proof fn contents_show_what_they_hold(content: MessageContent)
    ensures
        content matches MessageContent::Text(t) ==> content@ == ContentView::Text(t@),
        content matches MessageContent::Blocks(b) ==> content@ is Blocks && (
        content@->Blocks_0).len() == b@.len() && (forall|i: int|
            0 <= i < b@.len() ==> #[trigger] (content@->Blocks_0)[i] == b@[i]@),
{
    if let MessageContent::Blocks(b) = content {
        lemma_blocks_view(b@);
    }
}

} // verus!
