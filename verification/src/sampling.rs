//! MCP sampling: what the bridge sends to a client, and what comes back.
use rmcp::model::{
    Content, CreateMessageRequestParams, CreateMessageResult, RawImageContent, Role as McpRole,
    SamplingMessage as McpMessage, SamplingMessageContent as McpContent,
};
use serde_json::Value;
use vstd::prelude::*;

use crate::json::{entries_of, json_of, JsonObject, JsonView};
use crate::text::{optional_text, texts};

verus! {

/// Who speaks in a message.
#[derive(Debug, Clone, Copy, PartialEq, Eq, Structural)]
pub enum Role {
    User,
    Assistant,
}

/// One block of a message that is sent.
#[derive(Debug)]
pub enum SamplingContent {
    Text { text: String },
    Image { data: String, mime_type: String },
    ToolUse { id: String, name: String, input: JsonObject },
    ToolResult { tool_use_id: String, content: Vec<String>, is_error: Option<bool> },
}

/// One message that is sent.
#[derive(Debug)]
pub struct SamplingMessage {
    pub role: Role,
    pub content: Vec<SamplingContent>,
}

/// A tool that the client's model may call.
#[derive(Debug)]
pub struct SamplingTool {
    pub name: String,
    pub description: Option<String>,
    pub input_schema: JsonObject,
}

/// Whether the client's model calls tools.
#[derive(Debug, Clone, Copy, PartialEq, Eq, Structural)]
pub enum ToolChoiceMode {
    Auto,
    Required,
    NoTools,
}

/// The parameters of a `sampling/createMessage` request.
#[derive(Debug)]
pub struct SamplingParams {
    pub messages: Vec<SamplingMessage>,
    pub max_tokens: u32,
    /// The names of the models to prefer.
    pub model_hints: Vec<String>,
    pub system_prompt: Option<String>,
    /// The bit pattern of the temperature, a 32-bit floating-point number.
    pub temperature_bits: Option<u32>,
    pub stop_sequences: Option<Vec<String>>,
    pub metadata: Option<Value>,
    pub tools: Option<Vec<SamplingTool>>,
    pub tool_choice: Option<ToolChoiceMode>,
}

/// One block of the message that comes back. Of an image, a sound and a tool
/// result only the kind is kept: the Messages API has no place for them.
#[derive(Debug)]
pub enum SampledContent {
    Text { text: String },
    Image,
    Audio,
    ToolUse { id: String, name: String, input: JsonObject },
    ToolResult,
}

/// The result of a `sampling/createMessage` request.
#[derive(Debug)]
pub struct SamplingResult {
    pub role: Role,
    pub content: Vec<SampledContent>,
    pub model: String,
    pub stop_reason: Option<String>,
}

/// What a [`SamplingContent`] is.
pub enum SamplingContentView {
    Text(Seq<char>),
    Image { data: Seq<char>, mime_type: Seq<char> },
    ToolUse { id: Seq<char>, name: Seq<char>, input: Map<Seq<char>, JsonView> },
    ToolResult { tool_use_id: Seq<char>, content: Seq<Seq<char>>, is_error: Option<bool> },
}

impl View for SamplingContent {
    type V = SamplingContentView;

    open spec fn view(&self) -> SamplingContentView {
        match self {
            SamplingContent::Text { text } => SamplingContentView::Text(text@),
            SamplingContent::Image { data, mime_type } => SamplingContentView::Image {
                data: data@,
                mime_type: mime_type@,
            },
            SamplingContent::ToolUse { id, name, input } => SamplingContentView::ToolUse {
                id: id@,
                name: name@,
                input: entries_of(*input),
            },
            SamplingContent::ToolResult { tool_use_id, content, is_error } => {
                SamplingContentView::ToolResult {
                    tool_use_id: tool_use_id@,
                    content: texts(content@),
                    is_error: *is_error,
                }
            },
        }
    }
}

/// What the blocks of a message are.
pub open spec fn sampling_contents(contents: Seq<SamplingContent>) -> Seq<SamplingContentView> {
    Seq::new(contents.len(), |i: int| contents[i]@)
}

/// What a [`SamplingMessage`] is.
pub struct SamplingMessageView {
    pub role: Role,
    pub content: Seq<SamplingContentView>,
}

impl View for SamplingMessage {
    type V = SamplingMessageView;

    open spec fn view(&self) -> SamplingMessageView {
        SamplingMessageView { role: self.role, content: sampling_contents(self.content@) }
    }
}

/// What the messages of a request are.
pub open spec fn sampling_messages(messages: Seq<SamplingMessage>) -> Seq<SamplingMessageView> {
    Seq::new(messages.len(), |i: int| messages[i]@)
}

/// What a [`SamplingTool`] is.
pub struct SamplingToolView {
    pub name: Seq<char>,
    pub description: Option<Seq<char>>,
    pub input_schema: Map<Seq<char>, JsonView>,
}

impl View for SamplingTool {
    type V = SamplingToolView;

    open spec fn view(&self) -> SamplingToolView {
        SamplingToolView {
            name: self.name@,
            description: optional_text(self.description),
            input_schema: entries_of(self.input_schema),
        }
    }
}

/// What a list of tools is.
pub open spec fn sampling_tools(tools: Seq<SamplingTool>) -> Seq<SamplingToolView> {
    Seq::new(tools.len(), |i: int| tools[i]@)
}

/// What [`SamplingParams`] are.
pub struct SamplingParamsView {
    pub messages: Seq<SamplingMessageView>,
    pub max_tokens: u32,
    pub model_hints: Seq<Seq<char>>,
    pub system_prompt: Option<Seq<char>>,
    pub temperature_bits: Option<u32>,
    pub stop_sequences: Option<Seq<Seq<char>>>,
    pub metadata: Option<JsonView>,
    pub tools: Option<Seq<SamplingToolView>>,
    pub tool_choice: Option<ToolChoiceMode>,
}

impl View for SamplingParams {
    type V = SamplingParamsView;

    open spec fn view(&self) -> SamplingParamsView {
        SamplingParamsView {
            messages: sampling_messages(self.messages@),
            max_tokens: self.max_tokens,
            model_hints: texts(self.model_hints@),
            system_prompt: optional_text(self.system_prompt),
            temperature_bits: self.temperature_bits,
            stop_sequences: match self.stop_sequences {
                Some(stop_sequences) => Some(texts(stop_sequences@)),
                None => None,
            },
            metadata: match self.metadata {
                Some(metadata) => Some(json_of(metadata)),
                None => None,
            },
            tools: match self.tools {
                Some(tools) => Some(sampling_tools(tools@)),
                None => None,
            },
            tool_choice: self.tool_choice,
        }
    }
}

/// What a [`SampledContent`] is.
pub enum SampledContentView {
    Text(Seq<char>),
    Image,
    Audio,
    ToolUse { id: Seq<char>, name: Seq<char>, input: Map<Seq<char>, JsonView> },
    ToolResult,
}

impl View for SampledContent {
    type V = SampledContentView;

    open spec fn view(&self) -> SampledContentView {
        match self {
            SampledContent::Text { text } => SampledContentView::Text(text@),
            SampledContent::Image => SampledContentView::Image,
            SampledContent::Audio => SampledContentView::Audio,
            SampledContent::ToolUse { id, name, input } => SampledContentView::ToolUse {
                id: id@,
                name: name@,
                input: entries_of(*input),
            },
            SampledContent::ToolResult => SampledContentView::ToolResult,
        }
    }
}

/// What the blocks that came back are.
pub open spec fn sampled_contents(contents: Seq<SampledContent>) -> Seq<SampledContentView> {
    Seq::new(contents.len(), |i: int| contents[i]@)
}

/// What a [`SamplingResult`] is.
pub struct SamplingResultView {
    pub role: Role,
    pub content: Seq<SampledContentView>,
    pub model: Seq<char>,
    pub stop_reason: Option<Seq<char>>,
}

impl View for SamplingResult {
    type V = SamplingResultView;

    open spec fn view(&self) -> SamplingResultView {
        SamplingResultView {
            role: self.role,
            content: sampled_contents(self.content@),
            model: self.model@,
            stop_reason: optional_text(self.stop_reason),
        }
    }
}

/// Whether something is accepted, or why not.
pub open spec fn verdict_view(verdict: Result<(), String>) -> Result<(), Seq<char>> {
    match verdict {
        Ok(()) => Ok(()),
        Err(reason) => Err(reason@),
    }
}

/// Whether block `j` of message `i` is a call of a tool under `id`.
pub open spec fn calls_tool(
    messages: Seq<SamplingMessageView>,
    i: int,
    j: int,
    id: Seq<char>,
) -> bool {
    &&& 0 <= i < messages.len()
    &&& 0 <= j < messages[i].content.len()
    &&& messages[i].content[j] matches SamplingContentView::ToolUse { id: called, .. }
    &&& called == id
}

/// Whether block `j` of message `i` is the result of the call `id`.
pub open spec fn answers_tool(
    messages: Seq<SamplingMessageView>,
    i: int,
    j: int,
    id: Seq<char>,
) -> bool {
    &&& 0 <= i < messages.len()
    &&& 0 <= j < messages[i].content.len()
    &&& messages[i].content[j] matches SamplingContentView::ToolResult { tool_use_id, .. }
    &&& tool_use_id == id
}

/// Whether block `j` of message `i` stands before block `l` of message `k`.
pub open spec fn precedes(i: int, j: int, k: int, l: int) -> bool {
    i < k || (i == k && j < l)
}

/// The assistant alone calls tools, the user alone gives results, and a
/// message with a result holds nothing but results.
pub open spec fn tools_in_place(message: SamplingMessageView) -> bool {
    forall|j: int|
        0 <= j < message.content.len() ==> {
            &&& #[trigger] message.content[j] is ToolUse ==> message.role == Role::Assistant
            &&& message.content[j] is ToolResult ==> message.role == Role::User && forall|l: int|
                0 <= l < message.content.len() ==> #[trigger] message.content[l] is ToolResult
        }
}

/// A result stands after a call of its own that had none yet.
pub open spec fn result_is_owed(
    messages: Seq<SamplingMessageView>,
    i: int,
    j: int,
    id: Seq<char>,
) -> bool {
    exists|k: int, l: int|
        #![trigger calls_tool(messages, k, l, id)]
        calls_tool(messages, k, l, id) && precedes(k, l, i, j) && forall|a: int, b: int|
            precedes(k, l, a, b) && precedes(a, b, i, j) ==> !#[trigger] answers_tool(
                messages,
                a,
                b,
                id,
            )
}

/// A call stands before a result for it.
pub open spec fn call_is_answered(
    messages: Seq<SamplingMessageView>,
    i: int,
    j: int,
    id: Seq<char>,
) -> bool {
    exists|k: int, l: int| #[trigger] answers_tool(messages, k, l, id) && precedes(i, j, k, l)
}

/// Calls and results of tools are in place, and they match.
pub open spec fn tools_balanced(messages: Seq<SamplingMessageView>) -> bool {
    &&& forall|i: int| 0 <= i < messages.len() ==> tools_in_place(#[trigger] messages[i])
    &&& forall|i: int, j: int, id: Seq<char>| #[trigger]
        answers_tool(messages, i, j, id) ==> result_is_owed(messages, i, j, id)
    &&& forall|i: int, j: int, id: Seq<char>| #[trigger]
        calls_tool(messages, i, j, id) ==> call_is_answered(messages, i, j, id)
}

/// Why a message is refused in which calls or results of tools are out of
/// place, if they are.
pub open spec fn misplacement(message: SamplingMessageView) -> Option<Seq<char>> {
    let calls = exists|j: int|
        0 <= j < message.content.len() && #[trigger] message.content[j] is ToolUse;
    let results = exists|j: int|
        0 <= j < message.content.len() && #[trigger] message.content[j] is ToolResult;
    let others = exists|j: int|
        0 <= j < message.content.len() && !(#[trigger] message.content[j] is ToolResult);
    if message.role == Role::User && calls {
        Some("ToolUse content is only allowed in assistant messages"@)
    } else if message.role == Role::Assistant && results {
        Some("ToolResult content is only allowed in user messages"@)
    } else if results && others {
        Some("SamplingMessage with tool result content MUST NOT contain other content types"@)
    } else {
        None
    }
}

/// Why the first message with calls or results out of place is refused, if
/// there is one.
pub open spec fn first_misplacement(messages: Seq<SamplingMessageView>) -> Option<Seq<char>>
    decreases messages.len(),
{
    if messages.len() == 0 {
        None
    } else {
        match first_misplacement(messages.drop_last()) {
            Some(reason) => Some(reason),
            None => misplacement(messages.last()),
        }
    }
}

/// Whether block `j` of message `i` is the first result that no call owes, and
/// `id` is the call that it names.
pub open spec fn is_first_stray(
    messages: Seq<SamplingMessageView>,
    i: int,
    j: int,
    id: Seq<char>,
) -> bool {
    &&& answers_tool(messages, i, j, id)
    &&& !result_is_owed(messages, i, j, id)
    &&& forall|a: int, b: int, earlier: Seq<char>| #[trigger]
        answers_tool(messages, a, b, earlier) && precedes(a, b, i, j) ==> result_is_owed(
            messages,
            a,
            b,
            earlier,
        )
}

/// The ids of the calls among the first `n` blocks of message `i` for which no
/// result comes.
pub open spec fn unanswered_in_message(messages: Seq<SamplingMessageView>, i: int, n: nat) -> Seq<
    Seq<char>,
>
    decreases n,
{
    if n == 0 {
        Seq::empty()
    } else {
        let earlier = unanswered_in_message(messages, i, (n - 1) as nat);
        match messages[i].content[n - 1] {
            SamplingContentView::ToolUse { id, .. } => if call_is_answered(messages, i, n - 1, id) {
                earlier
            } else {
                earlier.push(id)
            },
            _ => earlier,
        }
    }
}

/// The ids of the calls in the first `n` messages for which no result comes, in
/// order.
pub open spec fn unanswered_before(messages: Seq<SamplingMessageView>, n: nat) -> Seq<Seq<char>>
    decreases n,
{
    if n == 0 {
        Seq::empty()
    } else {
        unanswered_before(messages, (n - 1) as nat) + unanswered_in_message(
            messages,
            n - 1,
            messages[n - 1].content.len(),
        )
    }
}

/// The ids of all calls for which no result comes, in order.
pub open spec fn unanswered_calls(messages: Seq<SamplingMessageView>) -> Seq<Seq<char>> {
    unanswered_before(messages, messages.len())
}

/// Why messages are refused in which calls and results of tools are not in
/// place or do not match: the first message with one out of place, then the
/// first result that no call owes, and then the calls without a result, whose
/// ids are listed as `unanswered`.
pub open spec fn refusal(messages: Seq<SamplingMessageView>, unanswered: Seq<char>) -> Seq<char> {
    match first_misplacement(messages) {
        Some(reason) => reason,
        None => if exists|i: int, j: int, id: Seq<char>| is_first_stray(messages, i, j, id) {
            let (i, j, id) = choose|i: int, j: int, id: Seq<char>|
                is_first_stray(messages, i, j, id);
            "ToolResult with toolUseId '"@ + id + "' has no matching ToolUse"@
        } else {
            "ToolUse with id(s) "@ + unanswered + " not balanced with ToolResult"@
        },
    }
}

/// A list of ids as `CreateMessageRequestParams::validate` writes it: the list
/// formatted for debugging.
pub uninterp spec fn id_list_text(ids: Seq<Seq<char>>) -> Seq<char>;

/// Whether MCP accepts a request with these messages: calls and results of
/// tools must be in place, and they must match.
pub open spec fn sampling_verdict(messages: Seq<SamplingMessageView>) -> Result<(), Seq<char>> {
    if tools_balanced(messages) {
        Ok(())
    } else {
        Err(refusal(messages, id_list_text(unanswered_calls(messages))))
    }
}

/// Calls `CreateMessageRequestParams::validate` of `rmcp` on parameters with
/// these messages. It reads the role of a message, the kind of a block, the
/// id of a call and the id in a result. It accepts the messages exactly if
/// the calls and the results of tools are in place and match. It refuses
/// others for what it finds first, as [`refusal`] says. The name
/// [`id_list_text`] stands for the list of ids in its text on calls without a
/// result.
#[verifier::external_body]
pub(crate) fn validate_params(messages: &Vec<SamplingMessage>) -> (verdict: Result<(), String>)
    ensures
        verdict is Ok <==> tools_balanced(sampling_messages(messages@)),
        verdict matches Err(reason) ==> reason@ == refusal(
            sampling_messages(messages@),
            id_list_text(unanswered_calls(sampling_messages(messages@))),
        ),
{
    let sent = messages.iter().map(|m| McpMessage::new_multiple(
        match m.role { Role::User => McpRole::User, Role::Assistant => McpRole::Assistant },
        m.content.iter().map(|c| match c {
            SamplingContent::Text { text } => McpContent::text(text),
            SamplingContent::Image { data, mime_type } => McpContent::Image(
                RawImageContent { data: data.clone(), mime_type: mime_type.clone(), meta: None }),
            SamplingContent::ToolUse { id, name, input } =>
                McpContent::tool_use(id, name, input.clone()),
            SamplingContent::ToolResult { tool_use_id, content, .. } =>
                McpContent::tool_result(tool_use_id, content.iter().map(Content::text).collect()),
        }).collect(),
    )).collect();
    CreateMessageRequestParams::new(sent, 0).validate()
}

/// At most one result is the first that no call owes.
pub proof fn first_stray_is_one(
    messages: Seq<SamplingMessageView>,
    i: int,
    j: int,
    id: Seq<char>,
    k: int,
    l: int,
    other: Seq<char>,
)
    requires
        is_first_stray(messages, i, j, id),
        is_first_stray(messages, k, l, other),
    ensures
        i == k,
        j == l,
        id == other,
{
    assert(!precedes(i, j, k, l));
    assert(!precedes(k, l, i, j));
}

/// Where some result is owed by no call, one is the first.
proof fn lemma_first_stray_exists(
    messages: Seq<SamplingMessageView>,
    i: int,
    j: int,
    id: Seq<char>,
)
    requires
        answers_tool(messages, i, j, id),
        !result_is_owed(messages, i, j, id),
    ensures
        exists|k: int, l: int, other: Seq<char>| is_first_stray(messages, k, l, other),
    decreases i, j,
{
    if !is_first_stray(messages, i, j, id) {
        let (a, b, earlier) = choose|a: int, b: int, earlier: Seq<char>| #[trigger]
            answers_tool(messages, a, b, earlier) && precedes(a, b, i, j) && !result_is_owed(
                messages,
                a,
                b,
                earlier,
            );
        lemma_first_stray_exists(messages, a, b, earlier);
    }
}

/// Where no message is refused for calls or results out of place, they are in
/// place.
proof fn lemma_in_place(messages: Seq<SamplingMessageView>, i: int)
    requires
        first_misplacement(messages) is None,
        0 <= i < messages.len(),
    ensures
        tools_in_place(messages[i]),
    decreases messages.len(),
{
    if i < messages.len() - 1 {
        lemma_in_place(messages.drop_last(), i);
    }
}

/// A call without a result is listed.
proof fn lemma_unanswered_is_listed(
    messages: Seq<SamplingMessageView>,
    i: int,
    j: int,
    id: Seq<char>,
    n: nat,
)
    requires
        calls_tool(messages, i, j, id),
        !call_is_answered(messages, i, j, id),
        j < n <= messages[i].content.len(),
    ensures
        unanswered_in_message(messages, i, n).contains(id),
    decreases n,
{
    let listed = unanswered_in_message(messages, i, n);
    if j == n - 1 {
        assert(listed.last() == id);
    } else {
        lemma_unanswered_is_listed(messages, i, j, id, (n - 1) as nat);
        let earlier = unanswered_in_message(messages, i, (n - 1) as nat);
        let k = choose|k: int| 0 <= k < earlier.len() && earlier[k] == id;
        assert(listed[k] == id);
    }
}

/// A call without a result is listed among those of its message and of the
/// ones around it.
proof fn lemma_unanswered_is_listed_before(
    messages: Seq<SamplingMessageView>,
    i: int,
    j: int,
    id: Seq<char>,
    n: nat,
)
    requires
        calls_tool(messages, i, j, id),
        !call_is_answered(messages, i, j, id),
        i < n <= messages.len(),
    ensures
        unanswered_before(messages, n).contains(id),
    decreases n,
{
    let earlier = unanswered_before(messages, (n - 1) as nat);
    let listed = unanswered_before(messages, n);
    if i == n - 1 {
        let here = unanswered_in_message(messages, i, messages[i].content.len());
        lemma_unanswered_is_listed(messages, i, j, id, messages[i].content.len());
        let k = choose|k: int| 0 <= k < here.len() && here[k] == id;
        assert(listed[earlier.len() + k] == id);
    } else {
        lemma_unanswered_is_listed_before(messages, i, j, id, (n - 1) as nat);
        let k = choose|k: int| 0 <= k < earlier.len() && earlier[k] == id;
        assert(listed[k] == id);
    }
}

/// Every refusal has its reason: where calls and results are in place and no
/// result is without its call, some call is without a result, and each such
/// call is listed.
pub proof fn refusal_has_its_reason(messages: Seq<SamplingMessageView>)
    requires
        first_misplacement(messages) is None,
        forall|i: int, j: int, id: Seq<char>| !is_first_stray(messages, i, j, id),
    ensures
        !tools_balanced(messages) ==> unanswered_calls(messages).len() > 0,
        forall|i: int, j: int, id: Seq<char>| #[trigger]
            calls_tool(messages, i, j, id) && !call_is_answered(messages, i, j, id)
                ==> unanswered_calls(messages).contains(id),
{
    assert forall|i: int, j: int, id: Seq<char>| #[trigger]
        calls_tool(messages, i, j, id) && !call_is_answered(
            messages,
            i,
            j,
            id,
        ) implies unanswered_calls(messages).contains(id) by {
        lemma_unanswered_is_listed_before(messages, i, j, id, messages.len());
    }
    assert forall|i: int| 0 <= i < messages.len() implies tools_in_place(
        #[trigger] messages[i],
    ) by {
        lemma_in_place(messages, i);
    }
    assert forall|i: int, j: int, id: Seq<char>| #[trigger]
        answers_tool(messages, i, j, id) implies result_is_owed(messages, i, j, id) by {
        if !result_is_owed(messages, i, j, id) {
            lemma_first_stray_exists(messages, i, j, id);
        }
    }
}

/// The verdict on the role of the message that came back.
pub open spec fn result_verdict(role: Role) -> Result<(), Seq<char>> {
    match role {
        Role::Assistant => Ok(()),
        Role::User => Err("CreateMessageResult role must be 'assistant'"@),
    }
}

/// Calls `CreateMessageResult::validate` of `rmcp` on a result whose message
/// has this role, which is all that it reads: it accepts the assistant's.
#[verifier::external_body]
pub(crate) fn validate_result(role: Role) -> (verdict: Result<(), String>)
    ensures
        verdict_view(verdict) == result_verdict(role),
{
    let role = match role { Role::User => McpRole::User, Role::Assistant => McpRole::Assistant };
    CreateMessageResult::new(McpMessage::new_multiple(role, Vec::new()), String::new()).validate()
}

} // verus!
