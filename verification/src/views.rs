//! What the views of the data hold: nothing of a value is left out of its view
//! that tells in what is passed on.
use serde_json::Value;
use vstd::prelude::*;

use crate::anthropic::{
    conversation, input_blocks, output_blocks, tool_definitions, ImageSource, ImageSourceView,
    InputBlockView, InputContentBlock, MessageContentInput, MessageContentView, MessageParam,
    MessagesRequest, MessagesResponse, OutputBlockView, OutputContentBlock, RequestView, SystemPrompt,
    ToolChoice, ToolChoiceView, ToolDefinition, ToolResultContentInput,
};
use crate::api::{ApiError, ServiceFailure, ServiceFailureView};
use crate::conversion::{step_matches, with_body, ConversionStep};
use crate::error::{BridgeError, BridgeErrorView};
use crate::image::{body_outcome, head_outcome, outcome_text, ResponseHead};
use crate::json::{entries_of, json_items, json_of};
use crate::outcome::{request_outcome, ImageReply, Outcome, Query};
use crate::runtime::{sampling_outcome, MessagesReply, MessagesReplyView};
use crate::sampling::{
    sampled_contents, sampling_contents, sampling_messages, sampling_tools, verdict_view,
    SampledContent, SampledContentView, SamplingContent, SamplingContentView, SamplingMessage,
    SamplingParams, SamplingResult, SamplingTool,
};
use crate::streaming::{sse_frames, SseFrame};
use crate::text::{optional_str, optional_text, texts};

verus! {

/// Strings are seen as their texts, as many and in order, and one that may be
/// absent as a text that may be.
pub proof fn strings_are_seen_whole(
    strings: Seq<String>,
    string: Option<String>,
    borrowed: Option<&str>,
    i: int,
)
    ensures
        texts(strings).len() == strings.len(),
        0 <= i < strings.len() ==> texts(strings)[i] == strings[i]@,
        optional_text(string) is Some <==> string is Some,
        string matches Some(s) ==> optional_text(string) == Some(s@),
        optional_str(borrowed) is Some <==> borrowed is Some,
        borrowed matches Some(s) ==> optional_str(borrowed) == Some(s@),
{
}

/// The source of an image is seen with its kind and all it holds.
pub proof fn image_source_is_seen_whole(source: ImageSource)
    ensures
        match source {
            ImageSource::Base64 { media_type: named, data: given } => {
                &&& source@ matches ImageSourceView::Base64 { media_type, data }
                &&& media_type == named@
                &&& data == given@
            },
            ImageSource::Url { url: address, media_type: named } => {
                &&& source@ matches ImageSourceView::Url { url, media_type }
                &&& url == address@
                &&& media_type is Some <==> named is Some
                &&& named matches Some(given) ==> media_type == Some(given@)
            },
        },
{
}

/// What a tool gave back is seen text by text: a plain text as one.
pub proof fn tool_result_is_seen_whole(content: ToolResultContentInput, i: int)
    ensures
        match content {
            ToolResultContentInput::String(text) => content@.len() == 1 && content@[0] == text@,
            ToolResultContentInput::Blocks(blocks) => {
                &&& content@.len() == blocks@.len()
                &&& 0 <= i < blocks@.len() ==> content@[i] == blocks@[i].text@
            },
        },
{
}

/// A system prompt is seen part by part: a plain text as one.
pub proof fn system_prompt_is_seen_whole(prompt: SystemPrompt, i: int)
    ensures
        match prompt {
            SystemPrompt::String(text) => prompt@.len() == 1 && prompt@[0] == text@,
            SystemPrompt::Blocks(blocks) => {
                &&& prompt@.len() == blocks@.len()
                &&& 0 <= i < blocks@.len() ==> prompt@[i] == blocks@[i].text@
            },
        },
{
}

/// A block of a message is seen with its kind and all it holds.
pub proof fn input_block_is_seen_whole(block: InputContentBlock)
    ensures
        match block {
            InputContentBlock::Text { text } => block@ == InputBlockView::Text(text@),
            InputContentBlock::Image { source } => block@ == InputBlockView::Image(source@),
            InputContentBlock::ToolUse { id: call, name: tool, input: given } => {
                &&& block@ matches InputBlockView::ToolUse { id, name, input }
                &&& id == call@
                &&& name == tool@
                &&& input == json_of(given)
            },
            InputContentBlock::ToolResult {
                tool_use_id: call,
                is_error: failed,
                content: given,
            } => {
                &&& block@ matches InputBlockView::ToolResult { tool_use_id, is_error, content }
                &&& tool_use_id == call@
                &&& is_error == failed
                &&& content == given@
            },
        },
{
}

/// A message is seen with its speaker and all its blocks, in order.
pub proof fn message_is_seen_whole(
    messages: Seq<MessageParam>,
    message: MessageParam,
    blocks: Seq<InputContentBlock>,
    i: int,
)
    ensures
        conversation(messages).len() == messages.len(),
        0 <= i < messages.len() ==> conversation(messages)[i] == messages[i]@,
        message@.role == message.role,
        match message.content {
            MessageContentInput::String(text) => message@.content == MessageContentView::Text(
                text@,
            ),
            MessageContentInput::Blocks(given) => message@.content == MessageContentView::Blocks(
                input_blocks(given@),
            ),
        },
        input_blocks(blocks).len() == blocks.len(),
        0 <= i < blocks.len() ==> input_blocks(blocks)[i] == blocks[i]@,
{
}

/// A tool and a choice of tools are seen with all they hold.
pub proof fn tool_is_seen_whole(
    tools: Seq<ToolDefinition>,
    tool: ToolDefinition,
    choice: ToolChoice,
    i: int,
)
    ensures
        tool_definitions(tools).len() == tools.len(),
        0 <= i < tools.len() ==> tool_definitions(tools)[i] == tools[i]@,
        tool@.name == tool.name@,
        tool@.description is Some <==> tool.description is Some,
        tool.description matches Some(text) ==> tool@.description == Some(text@),
        tool@.input_schema == json_of(tool.input_schema),
        choice@ is Auto <==> choice is Auto,
        choice@ is Any <==> choice is Any,
        choice@ is NoTools <==> choice is NoTools,
        choice matches ToolChoice::Tool { name } ==> choice@ == ToolChoiceView::Tool(name@),
{
}

/// A request is seen with all it holds.
pub proof fn request_is_seen_whole(request: MessagesRequest, i: int)
    ensures
        request@.model == request.model@,
        request@.max_tokens == request.max_tokens,
        request@.messages.len() == request.messages@.len(),
        0 <= i < request.messages@.len() ==> request@.messages[i] == request.messages@[i]@,
        request@.system is Some <==> request.system is Some,
        request.system matches Some(prompt) ==> request@.system == Some(prompt@),
        request@.metadata is Some <==> request.metadata is Some,
        request.metadata matches Some(value) ==> request@.metadata == Some(json_of(value)),
        request@.stop_sequences is Some <==> request.stop_sequences is Some,
        request.stop_sequences matches Some(stops) ==> {
            &&& request@.stop_sequences->0.len() == stops@.len()
            &&& 0 <= i < stops@.len() ==> request@.stop_sequences->0[i] == stops@[i]@
        },
        request@.temperature_bits == request.temperature_bits,
        request@.tools is Some <==> request.tools is Some,
        request.tools matches Some(tools) ==> {
            &&& request@.tools->0.len() == tools@.len()
            &&& 0 <= i < tools@.len() ==> request@.tools->0[i] == tools@[i]@
        },
        request@.tool_choice is Some <==> request.tool_choice is Some,
        request.tool_choice matches Some(choice) ==> request@.tool_choice == Some(choice@),
        request@.stream == request.stream,
{
}

/// A response is seen with all it holds.
pub proof fn response_is_seen_whole(
    response: MessagesResponse,
    block: OutputContentBlock,
    i: int,
)
    ensures
        response@.id == response.id@,
        response@.object_type == response.object_type@,
        response@.role == response.role@,
        response@.content == output_blocks(response.content@),
        response@.content.len() == response.content@.len(),
        0 <= i < response.content@.len() ==> response@.content[i] == response.content@[i]@,
        response@.model == response.model@,
        response@.stop_reason is Some <==> response.stop_reason is Some,
        response.stop_reason matches Some(reason) ==> response@.stop_reason == Some(reason@),
        response@.stop_sequence is Some <==> response.stop_sequence is Some,
        response.stop_sequence matches Some(stop) ==> response@.stop_sequence == Some(stop@),
        response@.usage == response.usage,
        match block {
            OutputContentBlock::Text { text } => block@ == OutputBlockView::Text(text@),
            OutputContentBlock::ToolUse { id: call, name: tool, input: given } => {
                &&& block@ matches OutputBlockView::ToolUse { id, name, input }
                &&& id == call@
                &&& name == tool@
                &&& input == json_of(given)
            },
        },
{
}

/// A block that is sent is seen with its kind and all it holds.
pub proof fn sampling_content_is_seen_whole(
    content: SamplingContent,
    contents: Seq<SamplingContent>,
    i: int,
)
    ensures
        sampling_contents(contents).len() == contents.len(),
        0 <= i < contents.len() ==> sampling_contents(contents)[i] == contents[i]@,
        match content {
            SamplingContent::Text { text } => content@ == SamplingContentView::Text(text@),
            SamplingContent::Image { data: given, mime_type: named } => {
                &&& content@ matches SamplingContentView::Image { data, mime_type }
                &&& data == given@
                &&& mime_type == named@
            },
            SamplingContent::ToolUse { id: call, name: tool, input: given } => {
                &&& content@ matches SamplingContentView::ToolUse { id, name, input }
                &&& id == call@
                &&& name == tool@
                &&& input == entries_of(given)
            },
            SamplingContent::ToolResult {
                tool_use_id: call,
                content: given,
                is_error: failed,
            } => {
                &&& content@ matches SamplingContentView::ToolResult {
                    tool_use_id,
                    content: said,
                    is_error,
                }
                &&& tool_use_id == call@
                &&& is_error == failed
                &&& said.len() == given@.len()
                &&& 0 <= i < given@.len() ==> said[i] == given@[i]@
            },
        },
{
}

/// What is sent is seen with all it holds.
pub proof fn params_are_seen_whole(
    params: SamplingParams,
    messages: Seq<SamplingMessage>,
    tools: Seq<SamplingTool>,
    i: int,
)
    ensures
        sampling_messages(messages).len() == messages.len(),
        0 <= i < messages.len() ==> {
            &&& sampling_messages(messages)[i].role == messages[i].role
            &&& sampling_messages(messages)[i].content == sampling_contents(messages[i].content@)
        },
        sampling_tools(tools).len() == tools.len(),
        0 <= i < tools.len() ==> {
            &&& sampling_tools(tools)[i].name == tools[i].name@
            &&& sampling_tools(tools)[i].description is Some <==> tools[i].description is Some
            &&& tools[i].description matches Some(text) ==> sampling_tools(tools)[i].description
                == Some(text@)
            &&& sampling_tools(tools)[i].input_schema == entries_of(tools[i].input_schema)
        },
        params@.messages == sampling_messages(params.messages@),
        params@.max_tokens == params.max_tokens,
        params@.model_hints.len() == params.model_hints@.len(),
        0 <= i < params.model_hints@.len() ==> params@.model_hints[i] == params.model_hints@[i]@,
        params@.system_prompt is Some <==> params.system_prompt is Some,
        params.system_prompt matches Some(text) ==> params@.system_prompt == Some(text@),
        params@.temperature_bits == params.temperature_bits,
        params@.stop_sequences is Some <==> params.stop_sequences is Some,
        params.stop_sequences matches Some(stops) ==> {
            &&& params@.stop_sequences->0.len() == stops@.len()
            &&& 0 <= i < stops@.len() ==> params@.stop_sequences->0[i] == stops@[i]@
        },
        params@.metadata is Some <==> params.metadata is Some,
        params.metadata matches Some(value) ==> params@.metadata == Some(json_of(value)),
        params@.tools is Some <==> params.tools is Some,
        params.tools matches Some(sent) ==> params@.tools == Some(sampling_tools(sent@)),
        params@.tool_choice == params.tool_choice,
{
}

/// What came back is seen with all it holds. Of what the Messages API has no
/// place for, the kind is seen.
pub proof fn result_is_seen_whole(result: SamplingResult, content: SampledContent, i: int)
    ensures
        result@.role == result.role,
        result@.content == sampled_contents(result.content@),
        result@.content.len() == result.content@.len(),
        0 <= i < result.content@.len() ==> result@.content[i] == result.content@[i]@,
        result@.model == result.model@,
        result@.stop_reason is Some <==> result.stop_reason is Some,
        result.stop_reason matches Some(reason) ==> result@.stop_reason == Some(reason@),
        match content {
            SampledContent::Text { text } => content@ == SampledContentView::Text(text@),
            SampledContent::Image => content@ is Image,
            SampledContent::Audio => content@ is Audio,
            SampledContent::ToolUse { id: call, name: tool, input: given } => {
                &&& content@ matches SampledContentView::ToolUse { id, name, input }
                &&& id == call@
                &&& name == tool@
                &&& input == entries_of(given)
            },
            SampledContent::ToolResult => content@ is ToolResult,
        },
{
}

/// Events and replies are seen with all they hold.
pub proof fn reply_is_seen_whole(
    frames: Seq<SseFrame>,
    values: Seq<Value>,
    reply: MessagesReply,
    i: int,
)
    ensures
        sse_frames(frames).len() == frames.len(),
        0 <= i < frames.len() ==> {
            &&& sse_frames(frames)[i].event == frames[i].event@
            &&& sse_frames(frames)[i].data == json_of(frames[i].data)
        },
        json_items(values).len() == values.len(),
        0 <= i < values.len() ==> json_items(values)[i] == json_of(values[i]),
        match reply {
            MessagesReply::Json(response) => reply@ == MessagesReplyView::Json(response@),
            MessagesReply::Events(given) => reply@ == MessagesReplyView::Events(
                sse_frames(given@),
            ),
        },
{
}

/// Errors are seen with their kind and their text.
pub proof fn error_is_seen_whole(error: BridgeError, answer: ApiError, failure: ServiceFailure)
    ensures
        match error {
            BridgeError::InvalidAnthropicRequest(text) => error@
                == BridgeErrorView::InvalidAnthropicRequest(text@),
            BridgeError::UnsupportedAnthropicFeature(text) => error@
                == BridgeErrorView::UnsupportedAnthropicFeature(text@),
        },
        answer@.status == answer.status,
        answer@.error_type == answer.error_type@,
        answer@.message == answer.message@,
        match failure {
            ServiceFailure::Rejected(text) => failure@ == ServiceFailureView::Rejected(text@),
            ServiceFailure::Unreachable(text) => failure@ == ServiceFailureView::Unreachable(text@),
        },
{
}

/// What came of something outside is seen as it came: whether it succeeded, and
/// with what.
pub proof fn outcome_is_seen_whole(
    text: Result<String, String>,
    verdict: Result<(), String>,
    head: Result<ResponseHead, String>,
    body: Result<Vec<u8>, String>,
    sampled: Result<SamplingResult, ServiceFailure>,
)
    ensures
        text matches Ok(t) ==> outcome_text(text) == Ok::<Seq<char>, Seq<char>>(t@),
        text matches Err(t) ==> outcome_text(text) == Err::<Seq<char>, Seq<char>>(t@),
        verdict is Ok <==> verdict_view(verdict) is Ok,
        verdict matches Err(t) ==> verdict_view(verdict) == Err::<(), Seq<char>>(t@),
        head matches Ok(h) ==> head_outcome(head) matches Ok(seen) && seen == h@,
        head matches Err(t) ==> head_outcome(head) matches Err(seen) && seen == t@,
        body matches Ok(b) ==> body_outcome(body) == Ok::<Seq<u8>, Seq<char>>(b@),
        body matches Err(t) ==> body_outcome(body) == Err::<Seq<u8>, Seq<char>>(t@),
        sampled matches Ok(r) ==> sampling_outcome(sampled) matches Ok(seen) && seen == r@,
        sampled matches Err(f) ==> sampling_outcome(sampled) matches Err(seen) && seen == f@,
{
}

/// A step of a conversion is what the conversion has come to: it is finished
/// with what is sent or with the error, or it waits for the address that is
/// asked for, and keeps the request and the replies.
pub proof fn step_tells_outcome(
    step: ConversionStep,
    request: RequestView,
    replies: Seq<ImageReply>,
)
    requires
        step_matches(step, request, replies),
    ensures
        match step {
            ConversionStep::Finished(Ok(params)) => {
                &&& request_outcome(request, replies) matches Outcome::Done { value, .. }
                &&& params@ == value
            },
            ConversionStep::Finished(Err(e)) => {
                &&& request_outcome(request, replies) matches Outcome::Fails(error)
                &&& e@ == error
            },
            ConversionStep::Download(pending) => {
                &&& request_outcome(request, replies) matches Outcome::Wants(Query::Head(url))
                &&& pending.address() == url
                &&& pending.request() == request
                &&& pending.replies() == replies
            },
            ConversionStep::ReadBody(pending) => {
                &&& request_outcome(request, replies) matches Outcome::Wants(Query::Body(url))
                &&& pending.address() == url
                &&& pending.request() == request
                &&& pending.replies() == replies
            },
        },
{
}

/// To add a body to the replies is to give it to the last one, which keeps its
/// head, and to leave the others as they are.
pub proof fn body_goes_to_last_reply(
    replies: Seq<ImageReply>,
    body: Result<Seq<u8>, Seq<char>>,
    i: int,
)
    requires
        replies.len() > 0,
    ensures
        with_body(replies, body).len() == replies.len(),
        with_body(replies, body).last().head == replies.last().head,
        with_body(replies, body).last().body == Some(body),
        0 <= i < replies.len() - 1 ==> with_body(replies, body)[i] == replies[i],
{
}

} // verus!
