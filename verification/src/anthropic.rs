//! The Anthropic Messages API: what a request and a response hold.
use serde_json::Value;
use vstd::prelude::*;

use crate::json::{json_of, JsonView};
use crate::text::{join, joined, optional_text, texts};

verus! {

/// Who speaks in a message.
#[derive(Debug, Clone, Copy, PartialEq, Eq, Structural)]
pub enum MessageRole {
    User,
    Assistant,
}

/// The one kind of block that a system prompt or a tool result is made of.
#[derive(Debug, Clone, Copy, PartialEq, Eq, Structural)]
pub enum ToolResultTextType {
    Text,
}

/// Where an image comes from.
#[derive(Debug, Clone)]
pub enum ImageSource {
    /// The image itself, in base64.
    Base64 { media_type: String, data: String },
    /// An address to load the image from.
    Url { url: String, media_type: Option<String> },
}

/// One block of text in what a tool gave back.
#[derive(Debug, Clone)]
pub struct ToolResultContentBlock {
    pub block_type: ToolResultTextType,
    pub text: String,
}

/// What a tool gave back.
#[derive(Debug, Clone)]
pub enum ToolResultContentInput {
    String(String),
    Blocks(Vec<ToolResultContentBlock>),
}

/// One block of a message.
#[derive(Debug)]
pub enum InputContentBlock {
    Text { text: String },
    Image { source: ImageSource },
    ToolUse { id: String, name: String, input: Value },
    ToolResult { tool_use_id: String, is_error: Option<bool>, content: ToolResultContentInput },
}

/// What a message says: plain text, or blocks.
#[derive(Debug)]
pub enum MessageContentInput {
    String(String),
    Blocks(Vec<InputContentBlock>),
}

/// One message of a conversation.
#[derive(Debug)]
pub struct MessageParam {
    pub role: MessageRole,
    pub content: MessageContentInput,
}

/// One block of a system prompt.
#[derive(Debug, Clone)]
pub struct SystemTextBlock {
    pub block_type: ToolResultTextType,
    pub text: String,
}

/// The system prompt: plain text, or blocks of it.
#[derive(Debug, Clone)]
pub enum SystemPrompt {
    String(String),
    Blocks(Vec<SystemTextBlock>),
}

/// A tool that the model may call.
#[derive(Debug)]
pub struct ToolDefinition {
    pub name: String,
    pub description: Option<String>,
    pub input_schema: Value,
}

/// Whether the model calls a tool, and which.
#[derive(Debug, Clone)]
pub enum ToolChoice {
    Auto,
    Any,
    NoTools,
    Tool { name: String },
}

/// A request to the Messages API.
#[derive(Debug)]
pub struct MessagesRequest {
    pub model: String,
    pub max_tokens: u32,
    pub messages: Vec<MessageParam>,
    pub system: Option<SystemPrompt>,
    pub metadata: Option<Value>,
    pub stop_sequences: Option<Vec<String>>,
    /// The bit pattern of the temperature, a 32-bit floating-point number.
    pub temperature_bits: Option<u32>,
    pub tools: Option<Vec<ToolDefinition>>,
    pub tool_choice: Option<ToolChoice>,
    pub stream: Option<bool>,
}

/// One block of a response.
#[derive(Debug)]
pub enum OutputContentBlock {
    Text { text: String },
    ToolUse { id: String, name: String, input: Value },
}

/// How many tokens a response cost.
#[derive(Debug, Clone, Copy, PartialEq, Eq, Structural)]
pub struct Usage {
    pub input_tokens: u32,
    pub output_tokens: u32,
}

impl Default for Usage {
    /// No tokens counted.
    fn default() -> (usage: Usage)
        ensures
            usage == (Usage { input_tokens: 0, output_tokens: 0 }),
    {
        Usage { input_tokens: 0, output_tokens: 0 }
    }
}

/// A response of the Messages API.
#[derive(Debug)]
pub struct MessagesResponse {
    pub id: String,
    pub object_type: String,
    pub role: String,
    pub content: Vec<OutputContentBlock>,
    pub model: String,
    pub stop_reason: Option<String>,
    pub stop_sequence: Option<String>,
    pub usage: Usage,
}

/// What an [`ImageSource`] is.
pub enum ImageSourceView {
    Base64 { media_type: Seq<char>, data: Seq<char> },
    Url { url: Seq<char>, media_type: Option<Seq<char>> },
}

impl View for ImageSource {
    type V = ImageSourceView;

    open spec fn view(&self) -> ImageSourceView {
        match self {
            ImageSource::Base64 { media_type, data } => ImageSourceView::Base64 {
                media_type: media_type@,
                data: data@,
            },
            ImageSource::Url { url, media_type } => ImageSourceView::Url {
                url: url@,
                media_type: optional_text(*media_type),
            },
        }
    }
}

impl View for ToolResultContentInput {
    /// The texts that the tool gave back, in order.
    type V = Seq<Seq<char>>;

    open spec fn view(&self) -> Seq<Seq<char>> {
        match self {
            ToolResultContentInput::String(text) => seq![text@],
            ToolResultContentInput::Blocks(blocks) => Seq::new(
                blocks@.len(),
                |i: int| blocks@[i].text@,
            ),
        }
    }
}

/// What an [`InputContentBlock`] is.
pub enum InputBlockView {
    Text(Seq<char>),
    Image(ImageSourceView),
    ToolUse { id: Seq<char>, name: Seq<char>, input: JsonView },
    ToolResult { tool_use_id: Seq<char>, is_error: Option<bool>, content: Seq<Seq<char>> },
}

impl View for InputContentBlock {
    type V = InputBlockView;

    open spec fn view(&self) -> InputBlockView {
        match self {
            InputContentBlock::Text { text } => InputBlockView::Text(text@),
            InputContentBlock::Image { source } => InputBlockView::Image(source@),
            InputContentBlock::ToolUse { id, name, input } => InputBlockView::ToolUse {
                id: id@,
                name: name@,
                input: json_of(*input),
            },
            InputContentBlock::ToolResult { tool_use_id, is_error, content } => {
                InputBlockView::ToolResult {
                    tool_use_id: tool_use_id@,
                    is_error: *is_error,
                    content: content@,
                }
            },
        }
    }
}

/// What blocks of a message are.
pub open spec fn input_blocks(blocks: Seq<InputContentBlock>) -> Seq<InputBlockView> {
    Seq::new(blocks.len(), |i: int| blocks[i]@)
}

/// What a [`MessageContentInput`] is.
pub enum MessageContentView {
    Text(Seq<char>),
    Blocks(Seq<InputBlockView>),
}

impl View for MessageContentInput {
    type V = MessageContentView;

    open spec fn view(&self) -> MessageContentView {
        match self {
            MessageContentInput::String(text) => MessageContentView::Text(text@),
            MessageContentInput::Blocks(blocks) => MessageContentView::Blocks(
                input_blocks(blocks@),
            ),
        }
    }
}

/// What a [`MessageParam`] is.
pub struct MessageView {
    pub role: MessageRole,
    pub content: MessageContentView,
}

impl View for MessageParam {
    type V = MessageView;

    open spec fn view(&self) -> MessageView {
        MessageView { role: self.role, content: self.content@ }
    }
}

/// What the messages of a conversation are.
pub open spec fn conversation(messages: Seq<MessageParam>) -> Seq<MessageView> {
    Seq::new(messages.len(), |i: int| messages[i]@)
}

impl View for SystemPrompt {
    /// The parts of the prompt, in order.
    type V = Seq<Seq<char>>;

    open spec fn view(&self) -> Seq<Seq<char>> {
        match self {
            SystemPrompt::String(text) => seq![text@],
            SystemPrompt::Blocks(blocks) => Seq::new(blocks@.len(), |i: int| blocks@[i].text@),
        }
    }
}

/// What a [`ToolDefinition`] is.
pub struct ToolDefinitionView {
    pub name: Seq<char>,
    pub description: Option<Seq<char>>,
    pub input_schema: JsonView,
}

impl View for ToolDefinition {
    type V = ToolDefinitionView;

    open spec fn view(&self) -> ToolDefinitionView {
        ToolDefinitionView {
            name: self.name@,
            description: optional_text(self.description),
            input_schema: json_of(self.input_schema),
        }
    }
}

/// What a list of tools is.
pub open spec fn tool_definitions(tools: Seq<ToolDefinition>) -> Seq<ToolDefinitionView> {
    Seq::new(tools.len(), |i: int| tools[i]@)
}

/// What a [`ToolChoice`] is.
pub enum ToolChoiceView {
    Auto,
    Any,
    NoTools,
    Tool(Seq<char>),
}

impl View for ToolChoice {
    type V = ToolChoiceView;

    open spec fn view(&self) -> ToolChoiceView {
        match self {
            ToolChoice::Auto => ToolChoiceView::Auto,
            ToolChoice::Any => ToolChoiceView::Any,
            ToolChoice::NoTools => ToolChoiceView::NoTools,
            ToolChoice::Tool { name } => ToolChoiceView::Tool(name@),
        }
    }
}

/// What a [`MessagesRequest`] is.
pub struct RequestView {
    pub model: Seq<char>,
    pub max_tokens: u32,
    pub messages: Seq<MessageView>,
    pub system: Option<Seq<Seq<char>>>,
    pub metadata: Option<JsonView>,
    pub stop_sequences: Option<Seq<Seq<char>>>,
    pub temperature_bits: Option<u32>,
    pub tools: Option<Seq<ToolDefinitionView>>,
    pub tool_choice: Option<ToolChoiceView>,
    pub stream: Option<bool>,
}

impl View for MessagesRequest {
    type V = RequestView;

    open spec fn view(&self) -> RequestView {
        RequestView {
            model: self.model@,
            max_tokens: self.max_tokens,
            messages: conversation(self.messages@),
            system: match self.system {
                Some(system) => Some(system@),
                None => None,
            },
            metadata: match self.metadata {
                Some(metadata) => Some(json_of(metadata)),
                None => None,
            },
            stop_sequences: match self.stop_sequences {
                Some(stop_sequences) => Some(texts(stop_sequences@)),
                None => None,
            },
            temperature_bits: self.temperature_bits,
            tools: match self.tools {
                Some(tools) => Some(tool_definitions(tools@)),
                None => None,
            },
            tool_choice: match self.tool_choice {
                Some(tool_choice) => Some(tool_choice@),
                None => None,
            },
            stream: self.stream,
        }
    }
}

/// What an [`OutputContentBlock`] is.
pub enum OutputBlockView {
    Text(Seq<char>),
    ToolUse { id: Seq<char>, name: Seq<char>, input: JsonView },
}

impl View for OutputContentBlock {
    type V = OutputBlockView;

    open spec fn view(&self) -> OutputBlockView {
        match self {
            OutputContentBlock::Text { text } => OutputBlockView::Text(text@),
            OutputContentBlock::ToolUse { id, name, input } => OutputBlockView::ToolUse {
                id: id@,
                name: name@,
                input: json_of(*input),
            },
        }
    }
}

/// What the blocks of a response are.
pub open spec fn output_blocks(blocks: Seq<OutputContentBlock>) -> Seq<OutputBlockView> {
    Seq::new(blocks.len(), |i: int| blocks[i]@)
}

/// What a [`MessagesResponse`] is.
pub struct ResponseView {
    pub id: Seq<char>,
    pub object_type: Seq<char>,
    pub role: Seq<char>,
    pub content: Seq<OutputBlockView>,
    pub model: Seq<char>,
    pub stop_reason: Option<Seq<char>>,
    pub stop_sequence: Option<Seq<char>>,
    pub usage: Usage,
}

impl View for MessagesResponse {
    type V = ResponseView;

    open spec fn view(&self) -> ResponseView {
        ResponseView {
            id: self.id@,
            object_type: self.object_type@,
            role: self.role@,
            content: output_blocks(self.content@),
            model: self.model@,
            stop_reason: optional_text(self.stop_reason),
            stop_sequence: optional_text(self.stop_sequence),
            usage: self.usage,
        }
    }
}

impl SystemPrompt {
    /// The prompt as one text: its parts with an empty line between each two.
    pub fn flatten_text(self) -> (text: String)
        ensures
            text@ == joined(self@, "\n\n"@),
    {
        match self {
            SystemPrompt::String(text) => text,
            SystemPrompt::Blocks(blocks) => {
                let mut parts: Vec<String> = Vec::new();
                for block in it: blocks
                    invariant
                        it.seq() == blocks@,
                        parts@.len() == it.index(),
                        forall|j: int| 0 <= j < it.index() ==> parts@[j]@ == blocks@[j].text@,
                {
                    parts.push(block.text);
                }
                assert(texts(parts@) =~= self@);
                join(&parts, "\n\n")
            },
        }
    }
}

impl ToolResultContentInput {
    /// The texts that the tool gave back, in order.
    pub fn into_texts(self) -> (result: Vec<String>)
        ensures
            texts(result@) == self@,
    {
        let mut result: Vec<String> = Vec::new();
        match self {
            ToolResultContentInput::String(text) => {
                result.push(text);
                assert(texts(result@) =~= self@);
            },
            ToolResultContentInput::Blocks(blocks) => {
                for block in it: blocks
                    invariant
                        it.seq() == blocks@,
                        result@.len() == it.index(),
                        forall|j: int| 0 <= j < it.index() ==> result@[j]@ == blocks@[j].text@,
                {
                    result.push(block.text);
                }
                assert(texts(result@) =~= self@);
            },
        }
        result
    }
}

impl MessagesRequest {
    /// Whether the response is to be streamed: not unless the request asks for it.
    pub fn wants_stream(&self) -> (yes: bool)
        ensures
            yes == (self@.stream == Some(true)),
    {
        match self.stream {
            Some(stream) => stream,
            None => false,
        }
    }
}

} // verus!
