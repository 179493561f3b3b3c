//! Requests of the Messages API become requests for MCP sampling.
//!
//! An image that a request names by its address has to be loaded before the
//! request can be sent on. The conversion then stops, says what it needs, and
//! goes on with what came of it.
use vstd::prelude::*;

use crate::anthropic::{
    conversation, input_blocks, tool_definitions, ImageSource, ImageSourceView, InputBlockView,
    InputContentBlock, MessageContentInput, MessageContentView, MessageParam, MessageRole,
    MessageView, MessagesRequest, RequestView, ToolChoice, ToolDefinition, ToolDefinitionView,
};
use crate::error::{BridgeError, BridgeErrorView};
use crate::hint::{append_required_tool_hint, prepared_messages, required_tool_name};
use crate::image::{
    body_outcome, check_image_url, fits_base64, head_outcome, judge_body, judge_head,
    media_type_verdict, parsed_scheme, scheme_verdict, ResponseHead,
};
use crate::json::value_to_object;
use crate::outcome::{
    assembled, block_conversion, block_conversion_is_local, block_outcome, in_order,
    in_order_is_local, in_order_stops, message_conversion, message_conversion_is_local,
    message_outcome, params_verdict, request_outcome, sampling_role, tool_choice_mode,
    tool_verdict, tools_verdict, ImageReply, Outcome, Query,
};
use crate::sampling::{
    sampling_contents, sampling_messages, sampling_tools, validate_params, verdict_view, Role,
    SamplingContent, SamplingContentView, SamplingMessage, SamplingMessageView, SamplingParams,
    SamplingParamsView, SamplingTool, SamplingToolView, ToolChoiceMode,
};
use crate::text::{optional_text, texts};

verus! {

/// The items in the opposite order.
fn reversed<T>(items: Vec<T>) -> (result: Vec<T>)
    ensures
        result@ == items@.reverse(),
{
    let mut items = items;
    let mut result: Vec<T> = Vec::new();
    let ghost all = items@;
    while items.len() > 0
        invariant
            items@ == all.take(items@.len() as int),
            items@.len() <= all.len(),
            result@ == all.skip(items@.len() as int).reverse(),
        decreases items@.len(),
    {
        let ghost n = items@.len() as int;
        if let Some(last) = items.pop() {
            result.push(last);
            assert(items@ =~= all.take(n - 1));
            assert(result@ =~= all.skip(n - 1).reverse());
        }
    }
    assert(all.skip(0) =~= all);
    result
}

/// A message of which only the first blocks are converted.
struct OpenMessage {
    role: MessageRole,
    /// The blocks that are still to be converted, the next one last.
    rest: Vec<InputContentBlock>,
    contents: Vec<SamplingContent>,
}

/// How far a conversion has come.
struct Progress {
    /// The messages that are still to be converted, the next one last.
    rest: Vec<MessageParam>,
    done: Vec<SamplingMessage>,
    open: Option<OpenMessage>,
    /// The request without its messages.
    settings: MessagesRequest,
    request: Ghost<RequestView>,
    replies: Ghost<Seq<ImageReply>>,
}

impl Progress {
    /// The messages of the request as they are sent on.
    spec fn messages(self) -> Seq<MessageView> {
        prepared_messages(self.request@.messages, self.request@.tool_choice)
    }

    /// What converting the messages before the next one came to.
    spec fn before(self) -> Outcome<Seq<SamplingMessageView>> {
        in_order(
            self.messages().take(self.done@.len() as int),
            message_conversion(),
            self.replies@,
        )
    }

    /// What converting the first blocks of the open message came to.
    spec fn within(self) -> Outcome<Seq<SamplingContentView>> {
        in_order(
            self.messages()[self.done@.len() as int].content->Blocks_0.take(
                self.open->0.contents@.len() as int,
            ),
            block_conversion(),
            self.replies@.skip(self.before()->used as int),
        )
    }

    /// Whether this is how far the conversion of the request has come, with
    /// the first `used` replies used and the blocks `held` taken out.
    spec fn tracks(self, held: Seq<InputBlockView>, used: nat) -> bool {
        let messages = self.messages();
        let n = self.done@.len() as int;
        &&& self.settings@ == (RequestView { messages: Seq::empty(), ..self.request@ })
        &&& n <= messages.len()
        &&& self.before() matches Outcome::Done { value, used: earlier } && {
            &&& value == sampling_messages(self.done@)
            &&& match self.open {
                None => {
                    &&& held.len() == 0
                    &&& used == earlier
                    &&& messages.skip(n) == conversation(self.rest@.reverse())
                },
                Some(open) => {
                    let m = open.contents@.len() as int;
                    &&& n < messages.len()
                    &&& messages.skip(n + 1) == conversation(self.rest@.reverse())
                    &&& messages[n].role == open.role
                    &&& messages[n].content matches MessageContentView::Blocks(blocks) && {
                        &&& m <= blocks.len()
                        &&& blocks.skip(m) == held + input_blocks(open.rest@.reverse())
                    }
                    &&& self.within() matches Outcome::Done { value: contents, used: later } && {
                        &&& contents == sampling_contents(open.contents@)
                        &&& used == earlier + later
                    }
                },
            }
        }
    }
}

/// A conversion that waits for the response to a request for an image.
pub struct PendingDownload {
    progress: Progress,
    url: String,
    media_type: Option<String>,
}

/// A conversion that waits for the body of such a response.
pub struct PendingBody {
    progress: Progress,
    url: String,
    named: Ghost<Option<Seq<char>>>,
    mime_type: String,
}

impl PendingDownload {
    #[verifier::type_invariant]
    spec fn well_formed(self) -> bool {
        &&& self.progress.open is Some
        &&& self.progress.tracks(
            seq![
                InputBlockView::Image(
                    ImageSourceView::Url {
                        url: self.url@,
                        media_type: optional_text(self.media_type),
                    },
                ),
            ],
            self.progress.replies@.len(),
        )
        &&& scheme_verdict(self.url@, parsed_scheme(self.url@)) is Ok
    }

    /// The request that is converted.
    pub closed spec fn request(self) -> RequestView {
        self.progress.request@
    }

    /// What came of the downloads so far.
    pub closed spec fn replies(self) -> Seq<ImageReply> {
        self.progress.replies@
    }

    /// The address of the image.
    pub closed spec fn address(self) -> Seq<char> {
        self.url@
    }

    /// The address of the image.
    pub fn url(&self) -> (url: &str)
        ensures
            url@ == self.address(),
    {
        self.url.as_str()
    }
}

impl PendingBody {
    #[verifier::type_invariant]
    spec fn well_formed(self) -> bool {
        let replies = self.progress.replies@;
        &&& replies.len() > 0
        &&& self.progress.open is Some
        &&& self.progress.tracks(
            seq![
                InputBlockView::Image(
                    ImageSourceView::Url { url: self.url@, media_type: self.named@ },
                ),
            ],
            (replies.len() - 1) as nat,
        )
        &&& scheme_verdict(self.url@, parsed_scheme(self.url@)) is Ok
        &&& media_type_verdict(self.url@, self.named@, replies.last().head) == Ok::<
            Seq<char>,
            BridgeErrorView,
        >(self.mime_type@)
        &&& replies.last().body is None
    }

    /// The request that is converted.
    pub closed spec fn request(self) -> RequestView {
        self.progress.request@
    }

    /// What came of the downloads so far.
    pub closed spec fn replies(self) -> Seq<ImageReply> {
        self.progress.replies@
    }

    /// The address of the image.
    pub closed spec fn address(self) -> Seq<char> {
        self.url@
    }

    /// The address of the image.
    pub fn url(&self) -> (url: &str)
        ensures
            url@ == self.address(),
    {
        self.url.as_str()
    }
}

/// What a conversion needs next, or what it came to.
pub enum ConversionStep {
    /// The response to a request for an image.
    Download(PendingDownload),
    /// The body of the response.
    ReadBody(PendingBody),
    /// Nothing more.
    Finished(Result<SamplingParams, BridgeError>),
}

/// Whether a step is the one that the conversion of a request has come to
/// with these replies.
pub open spec fn step_matches(
    step: ConversionStep,
    request: RequestView,
    replies: Seq<ImageReply>,
) -> bool {
    match request_outcome(request, replies) {
        Outcome::Done { value, .. } => step matches ConversionStep::Finished(Ok(params))
            && params@ == value,
        Outcome::Fails(error) => step matches ConversionStep::Finished(Err(e)) && e@ == error,
        Outcome::Wants(Query::Head(url)) => step matches ConversionStep::Download(pending) && {
            &&& pending.address() == url
            &&& pending.request() == request
            &&& pending.replies() == replies
        },
        Outcome::Wants(Query::Body(url)) => step matches ConversionStep::ReadBody(pending) && {
            &&& pending.address() == url
            &&& pending.request() == request
            &&& pending.replies() == replies
        },
    }
}

/// What converting a block on its own comes to.
enum BlockStep {
    Ready(SamplingContent),
    Failed(BridgeError),
    Download { url: String, media_type: Option<String> },
}

/// Whether converting a block on its own comes to this step.
spec fn block_step_matches(step: BlockStep, block: InputBlockView) -> bool {
    match step {
        BlockStep::Ready(content) => block_outcome(block, Seq::empty()) == Outcome::Done {
            value: content@,
            used: 0,
        },
        BlockStep::Failed(error) => block_outcome(block, Seq::empty()) == Outcome::<
            SamplingContentView,
        >::Fails(error@),
        BlockStep::Download { url, media_type } => {
            &&& block == InputBlockView::Image(
                ImageSourceView::Url { url: url@, media_type: optional_text(media_type) },
            )
            &&& scheme_verdict(url@, parsed_scheme(url@)) is Ok
        },
    }
}

/// An image in base64 is passed on; one at an address has to be loaded.
fn image_source_to_sampling(source: ImageSource) -> (step: BlockStep)
    ensures
        block_step_matches(step, InputBlockView::Image(source@)),
{
    match source {
        ImageSource::Base64 { media_type, data } => BlockStep::Ready(
            SamplingContent::Image { data, mime_type: media_type },
        ),
        ImageSource::Url { url, media_type } => match check_image_url(url.as_str()) {
            Ok(()) => BlockStep::Download { url, media_type },
            Err(error) => BlockStep::Failed(error),
        },
    }
}

/// A block in MCP.
fn input_block_to_sampling(block: InputContentBlock) -> (step: BlockStep)
    ensures
        block_step_matches(step, block@),
{
    match block {
        InputContentBlock::Text { text } => BlockStep::Ready(SamplingContent::Text { text }),
        InputContentBlock::Image { source } => image_source_to_sampling(source),
        InputContentBlock::ToolUse { id, name, input } => match value_to_object(input) {
            Ok(input) => BlockStep::Ready(SamplingContent::ToolUse { id, name, input }),
            Err(error) => BlockStep::Failed(error),
        },
        InputContentBlock::ToolResult { tool_use_id, is_error, content } => BlockStep::Ready(
            SamplingContent::ToolResult { tool_use_id, content: content.into_texts(), is_error },
        ),
    }
}

/// The role of a message in MCP.
fn role_to_sampling(role: MessageRole) -> (result: Role)
    ensures
        result == sampling_role(role),
{
    match role {
        MessageRole::User => Role::User,
        MessageRole::Assistant => Role::Assistant,
    }
}

/// A tool in MCP: its schema must be an object.
pub fn tool_definition_to_mcp(tool: ToolDefinition) -> (result: Result<SamplingTool, BridgeError>)
    ensures
        match tool_verdict(tool@) {
            Ok(converted) => result matches Ok(t) && t@ == converted,
            Err(error) => result matches Err(e) && e@ == error,
        },
{
    match value_to_object(tool.input_schema) {
        Ok(input_schema) => Ok(
            SamplingTool { name: tool.name, description: tool.description, input_schema },
        ),
        Err(error) => Err(error),
    }
}

/// A choice of tools in MCP, which has no way to insist on one of them.
pub fn tool_choice_to_mcp(tool_choice: ToolChoice) -> (mode: ToolChoiceMode)
    ensures
        mode == tool_choice_mode(tool_choice@),
{
    match tool_choice {
        ToolChoice::Auto => ToolChoiceMode::Auto,
        ToolChoice::Any => ToolChoiceMode::Required,
        ToolChoice::NoTools => ToolChoiceMode::NoTools,
        ToolChoice::Tool { .. } => ToolChoiceMode::Required,
    }
}

/// Tools in MCP: the first that is none ends it.
fn tools_to_mcp(tools: Vec<ToolDefinition>) -> (result: Result<Vec<SamplingTool>, BridgeError>)
    ensures
        match tools_verdict(tool_definitions(tools@)) {
            Ok(converted) => result matches Ok(t) && sampling_tools(t@) == converted,
            Err(error) => result matches Err(e) && e@ == error,
        },
{
    let ghost all = tool_definitions(tools@);
    let ghost given = tools@;
    let mut converted: Vec<SamplingTool> = Vec::new();
    assert(sampling_tools(converted@) =~= Seq::empty());
    for tool in it: tools
        invariant
            it.seq() == given,
            all == tool_definitions(given),
            converted@.len() == it.index(),
            tools_verdict(all.take(it.index() as int)) == Ok::<
                _,
                BridgeErrorView,
            >(sampling_tools(converted@)),
    {
        let ghost n = converted@.len() as int;
        assert(all.take(n + 1).drop_last() =~= all.take(n));
        assert(all.take(n + 1).last() == tool@);
        match tool_definition_to_mcp(tool) {
            Ok(tool) => {
                let ghost earlier = sampling_tools(converted@);
                converted.push(tool);
                assert(sampling_tools(converted@) =~= earlier.push(tool@));
            },
            Err(error) => {
                proof {
                    lemma_tools_verdict_stops(all, n + 1);
                }
                return Err(error);
            },
        }
    }
    assert(all.take(all.len() as int) =~= all);
    Ok(converted)
}

/// A tool that cannot be converted ends the conversion of tools.
proof fn lemma_tools_verdict_stops(tools: Seq<ToolDefinitionView>, n: int)
    requires
        0 <= n <= tools.len(),
        tools_verdict(tools.take(n)) is Err,
    ensures
        tools_verdict(tools) == tools_verdict(tools.take(n)),
    decreases tools.len(),
{
    if n == tools.len() {
        assert(tools.take(n) =~= tools);
    } else {
        assert(tools.drop_last().take(n) =~= tools.take(n));
        lemma_tools_verdict_stops(tools.drop_last(), n);
    }
}

/// The parameters if they were accepted, and otherwise the reason against them
/// as an error.
pub fn judge_params(params: SamplingParams, verdict: Result<(), String>) -> (result: Result<
    SamplingParams,
    BridgeError,
>)
    ensures
        match verdict_view(verdict) {
            Ok(()) => result == Ok::<SamplingParams, BridgeError>(params),
            Err(reason) => result matches Err(e) && e@ == BridgeErrorView::InvalidAnthropicRequest(
                reason,
            ),
        },
{
    match verdict {
        Ok(()) => Ok(params),
        Err(reason) => Err(BridgeError::InvalidAnthropicRequest(reason)),
    }
}

/// The end of a conversion, once the messages are converted.
fn finish(settings: MessagesRequest, messages: Vec<SamplingMessage>) -> (result: Result<
    SamplingParams,
    BridgeError,
>)
    ensures
        match params_verdict(settings@, sampling_messages(messages@)) {
            Ok(value) => result matches Ok(params) && params@ == value,
            Err(error) => result matches Err(e) && e@ == error,
        },
{
    let mut model_hints: Vec<String> = Vec::new();
    model_hints.push(settings.model);
    assert(texts(model_hints@) =~= seq![settings.model@]);
    let system_prompt = match settings.system {
        Some(system) => Some(system.flatten_text()),
        None => None,
    };
    let tools = match settings.tools {
        Some(tools) => match tools_to_mcp(tools) {
            Ok(tools) => Some(tools),
            Err(error) => {
                return Err(error);
            },
        },
        None => None,
    };
    let tool_choice = match settings.tool_choice {
        Some(tool_choice) => Some(tool_choice_to_mcp(tool_choice)),
        None => None,
    };
    let params = SamplingParams {
        messages,
        max_tokens: settings.max_tokens,
        model_hints,
        system_prompt,
        temperature_bits: settings.temperature_bits,
        stop_sequences: settings.stop_sequences,
        metadata: settings.metadata,
        tools,
        tool_choice,
    };
    let verdict = validate_params(&params.messages);
    judge_params(params, verdict)
}

/// Where the block that was taken out cannot be converted, the request cannot.
proof fn lemma_block_stops(progress: Progress, block: InputBlockView, used: nat)
    requires
        progress.open is Some,
        progress.tracks(seq![block], used),
    ensures
        match block_outcome(block, progress.replies@.skip(used as int)) {
            Outcome::Done { .. } => true,
            Outcome::Fails(error) => request_outcome(progress.request@, progress.replies@)
                == Outcome::<SamplingParamsView>::Fails(error),
            Outcome::Wants(query) => request_outcome(progress.request@, progress.replies@)
                == Outcome::<SamplingParamsView>::Wants(query),
        },
{
    let replies = progress.replies@;
    if !(block_outcome(block, replies.skip(used as int)) is Done) {
        let messages = progress.messages();
        let n = progress.done@.len() as int;
        let m = progress.open->0.contents@.len() as int;
        let blocks = messages[n].content->Blocks_0;
        let earlier = progress.before()->used as int;
        let later = progress.within()->used as int;
        let left = replies.skip(earlier);
        lemma_used_bound(progress, seq![block], used);
        assert(left.skip(later) =~= replies.skip(used as int));
        assert(blocks.skip(m).len() >= 1);
        assert(blocks.skip(m)[0] == block);
        assert(blocks.take(m + 1).drop_last() =~= blocks.take(m));
        assert(blocks.take(m + 1).last() == block);
        assert(block_conversion()(block, left.skip(later)) == block_outcome(
            block,
            left.skip(later),
        ));
        in_order_stops(blocks, m + 1, block_conversion(), left);
        assert(messages.take(n + 1).drop_last() =~= messages.take(n));
        assert(messages.take(n + 1).last() == messages[n]);
        assert(message_conversion()(messages[n], left) == message_outcome(messages[n], left));
        in_order_stops(messages, n + 1, message_conversion(), replies);
    }
}

/// No more replies are used than there are.
proof fn lemma_used_bound(progress: Progress, held: Seq<InputBlockView>, used: nat)
    requires
        progress.tracks(held, used),
    ensures
        progress.before()->used <= progress.replies@.len(),
        progress.before()->used <= used <= progress.replies@.len(),
{
    let replies = progress.replies@;
    let n = progress.done@.len() as int;
    message_conversion_is_local();
    in_order_is_local(progress.messages().take(n), message_conversion(), replies, replies);
    if let Some(open) = progress.open {
        let left = replies.skip(progress.before()->used as int);
        block_conversion_is_local();
        in_order_is_local(
            progress.messages()[n].content->Blocks_0.take(open.contents@.len() as int),
            block_conversion(),
            left,
            left,
        );
    }
}

/// Replies behind those that were used change nothing.
proof fn lemma_tracks_further(
    progress: Progress,
    further: Progress,
    held: Seq<InputBlockView>,
    used: nat,
)
    requires
        progress.tracks(held, used),
        used <= further.replies@.len(),
        further.replies@.take(used as int) == progress.replies@.take(used as int),
        further == (Progress { replies: further.replies, ..progress }),
    ensures
        further.tracks(held, used),
{
    let r = progress.replies@;
    let s = further.replies@;
    let n = progress.done@.len() as int;
    lemma_used_bound(progress, held, used);
    message_conversion_is_local();
    let earlier = progress.before()->used as int;
    assert(s.take(earlier) =~= s.take(used as int).take(earlier));
    assert(r.take(earlier) =~= r.take(used as int).take(earlier));
    in_order_is_local(progress.messages().take(n), message_conversion(), r, s);
    assert(further.before() == progress.before());
    if let Some(open) = progress.open {
        block_conversion_is_local();
        let later = progress.within()->used as int;
        assert(s.skip(earlier).take(later) =~= s.take(used as int).skip(earlier));
        assert(r.skip(earlier).take(later) =~= r.take(used as int).skip(earlier));
        in_order_is_local(
            progress.messages()[n].content->Blocks_0.take(open.contents@.len() as int),
            block_conversion(),
            r.skip(earlier),
            s.skip(earlier),
        );
        assert(further.within() == progress.within());
    }
}

/// The block that was taken out is converted.
proof fn lemma_block_done(
    progress: Progress,
    further: Progress,
    block: InputBlockView,
    used: nat,
    content: SamplingContent,
    more: nat,
)
    requires
        progress.tracks(seq![block], used),
        progress.open matches Some(open) && further == (Progress {
            open: Some(
                OpenMessage { contents: further.open->0.contents, ..open },
            ),
            ..progress
        }) && further.open->0.contents@ == open.contents@.push(content),
        block_outcome(block, progress.replies@.skip(used as int)) == (Outcome::Done {
            value: content@,
            used: more,
        }),
    ensures
        further.tracks(Seq::empty(), used + more),
{
    let replies = progress.replies@;
    let messages = progress.messages();
    let n = progress.done@.len() as int;
    let open = progress.open->0;
    let m = open.contents@.len() as int;
    let blocks = messages[n].content->Blocks_0;
    let earlier = progress.before()->used as int;
    let later = progress.within()->used as int;
    let left = replies.skip(earlier);
    lemma_used_bound(progress, seq![block], used);
    assert(left.skip(later) =~= replies.skip(used as int));
    assert(blocks.skip(m).len() >= 1);
    assert(blocks.skip(m)[0] == block);
    assert(blocks.take(m + 1).drop_last() =~= blocks.take(m));
    assert(blocks.take(m + 1).last() == block);
    assert(block_conversion()(block, left.skip(later)) == block_outcome(block, left.skip(later)));
    assert(sampling_contents(further.open->0.contents@) =~= sampling_contents(open.contents@).push(
        content@,
    ));
    assert(further.before() == progress.before());
    assert(blocks.skip(m + 1) =~= blocks.skip(m).skip(1));
    assert(seq![block] + input_blocks(open.rest@.reverse()) =~= blocks.skip(m));
    assert(blocks.skip(m + 1) =~= Seq::<InputBlockView>::empty() + input_blocks(
        open.rest@.reverse(),
    ));
}

/// A message is converted.
proof fn lemma_message_done(
    progress: Progress,
    further: Progress,
    message: SamplingMessage,
    used: nat,
    more: nat,
)
    requires
        progress.before() is Done,
        progress.before() matches Outcome::Done { value, .. } && value == sampling_messages(
            progress.done@,
        ),
        progress.done@.len() < progress.messages().len(),
        progress.settings@ == (RequestView { messages: Seq::empty(), ..progress.request@ }),
        progress.before()->used + more == used,
        message_outcome(
            progress.messages()[progress.done@.len() as int],
            progress.replies@.skip(progress.before()->used as int),
        ) == (Outcome::Done { value: message@, used: more }),
        further.done@ == progress.done@.push(message),
        further.open is None,
        further.settings == progress.settings,
        further.request == progress.request,
        further.replies == progress.replies,
        further.messages().skip(further.done@.len() as int) == conversation(
            further.rest@.reverse(),
        ),
    ensures
        further.tracks(Seq::empty(), used),
{
    let messages = progress.messages();
    let n = progress.done@.len() as int;
    let left = progress.replies@.skip(progress.before()->used as int);
    assert(messages.take(n + 1).drop_last() =~= messages.take(n));
    assert(messages.take(n + 1).last() == messages[n]);
    assert(message_conversion()(messages[n], left) == message_outcome(messages[n], left));
    assert(sampling_messages(further.done@) =~= sampling_messages(progress.done@).push(message@));
}

/// Where no message is left, the outcome is that of the end of the conversion.
proof fn lemma_messages_done(progress: Progress, used: nat)
    requires
        progress.tracks(Seq::empty(), used),
        progress.open is None,
        progress.rest@.len() == 0,
    ensures
        request_outcome(progress.request@, progress.replies@) == (match params_verdict(
            progress.settings@,
            sampling_messages(progress.done@),
        ) {
            Ok(value) => Outcome::Done { value, used },
            Err(error) => Outcome::Fails(error),
        }),
{
    let messages = progress.messages();
    let n = progress.done@.len() as int;
    assert(messages.skip(n).len() == 0);
    assert(messages.take(n) =~= messages);
    let sent = sampling_messages(progress.done@);
    assert(forall|tools: Option<Seq<SamplingToolView>>|
        assembled(progress.settings@, sent, tools) == #[trigger] assembled(
            progress.request@,
            sent,
            tools,
        ));
}

/// The next message is taken out.
proof fn lemma_message_taken(progress: Progress, rest: Seq<MessageParam>, message: MessageParam)
    requires
        progress.open is None,
        progress.tracks(Seq::empty(), progress.replies@.len()),
        progress.rest@ == rest.push(message),
    ensures
        progress.done@.len() < progress.messages().len(),
        progress.messages()[progress.done@.len() as int] == message@,
        progress.messages().skip(progress.done@.len() as int + 1) == conversation(rest.reverse()),
{
    let messages = progress.messages();
    let n = progress.done@.len() as int;
    let all = conversation(progress.rest@.reverse());
    assert(messages.skip(n).len() == rest.len() + 1);
    assert(all[0] == message@);
    assert(messages.skip(n)[0] == message@);
    assert(messages.skip(n + 1) =~= messages.skip(n).skip(1));
    assert(all.skip(1) =~= conversation(rest.reverse()));
}

/// The message that was taken out is open, with none of its blocks converted.
proof fn lemma_message_opened(progress: Progress, further: Progress, blocks: Seq<InputContentBlock>)
    requires
        progress.open is None,
        progress.tracks(Seq::empty(), progress.replies@.len()),
        progress.done@.len() < progress.messages().len(),
        further == (Progress { rest: further.rest, open: further.open, ..progress }),
        further.open matches Some(open) && {
            &&& progress.messages()[progress.done@.len() as int] == (MessageView {
                role: open.role,
                content: MessageContentView::Blocks(input_blocks(blocks)),
            })
            &&& open.rest@ == blocks.reverse()
            &&& open.contents@.len() == 0
        },
        further.messages().skip(further.done@.len() as int + 1) == conversation(
            further.rest@.reverse(),
        ),
    ensures
        further.tracks(Seq::empty(), further.replies@.len()),
{
    let open = further.open->0;
    let all = input_blocks(blocks);
    assert(open.rest@.reverse() =~= blocks);
    assert(all.skip(0) =~= Seq::<InputBlockView>::empty() + all);
    assert(all.take(0) =~= Seq::empty());
    assert(sampling_contents(open.contents@) =~= Seq::empty());
    assert(further.before() == progress.before());
}

/// The next block of the open message is taken out.
proof fn lemma_block_taken(progress: Progress, popped: Progress, block: InputContentBlock)
    requires
        progress.tracks(Seq::empty(), progress.replies@.len()),
        progress.open matches Some(open) && popped.open matches Some(rest) && {
            &&& popped == (Progress { open: popped.open, ..progress })
            &&& rest == (OpenMessage { rest: rest.rest, ..open })
            &&& open.rest@ == rest.rest@.push(block)
        },
    ensures
        popped.tracks(seq![block@], popped.replies@.len()),
{
    let n = progress.done@.len() as int;
    let open = progress.open->0;
    let left = popped.open->0.rest@;
    let m = open.contents@.len() as int;
    let blocks = progress.messages()[n].content->Blocks_0;
    assert(open.rest@.reverse() =~= seq![block] + left.reverse());
    assert(input_blocks(open.rest@.reverse()) =~= seq![block@] + input_blocks(left.reverse()));
    assert(blocks.skip(m) =~= seq![block@] + input_blocks(left.reverse()));
    assert(popped.before() == progress.before());
    assert(popped.within() == progress.within());
}

/// All blocks of the open message are converted.
proof fn lemma_message_closed(progress: Progress, further: Progress, message: SamplingMessage)
    requires
        progress.tracks(Seq::empty(), progress.replies@.len()),
        progress.open matches Some(open) && {
            &&& open.rest@.len() == 0
            &&& message.role == sampling_role(open.role)
            &&& message.content == open.contents
        },
        further.done@ == progress.done@.push(message),
        further == (Progress { done: further.done, open: None, ..progress }),
    ensures
        further.tracks(Seq::empty(), further.replies@.len()),
{
    let n = progress.done@.len() as int;
    let blocks = progress.messages()[n].content->Blocks_0;
    let m = progress.open->0.contents@.len() as int;
    assert(blocks.skip(m).len() == 0);
    assert(blocks.take(m) =~= blocks);
    lemma_message_done(
        progress,
        further,
        message,
        progress.replies@.len(),
        progress.within()->used,
    );
}

/// Goes on with a conversion until it ends or needs a download.
fn run(begun: Progress) -> (step: ConversionStep)
    requires
        begun.tracks(Seq::empty(), begun.replies@.len()),
    ensures
        step_matches(step, begun.request@, begun.replies@),
{
    let mut progress = begun;
    let ghost replies = begun.replies@;
    loop
        invariant
            progress.request@ == begun.request@,
            progress.replies@ == begun.replies@,
            replies == begun.replies@,
            progress.tracks(Seq::empty(), replies.len()),
        decreases
            progress.messages().len() - progress.done@.len(),
            (match progress.open {
                Some(_) => 0int,
                None => 1int,
            }),
            (match progress.open {
                Some(open) => open.rest@.len(),
                None => 0,
            }),
    {
        let ghost start = progress;
        match progress.open.take() {
            None => match progress.rest.pop() {
                None => {
                    proof {
                        lemma_messages_done(start, replies.len());
                    }
                    return ConversionStep::Finished(finish(progress.settings, progress.done));
                },
                Some(message) => {
                    proof {
                        assert(start.rest@ =~= progress.rest@.push(message));
                        lemma_message_taken(start, progress.rest@, message);
                    }
                    match message.content {
                        MessageContentInput::String(text) => {
                            let mut content: Vec<SamplingContent> = Vec::new();
                            content.push(SamplingContent::Text { text });
                            let converted = SamplingMessage {
                                role: role_to_sampling(message.role),
                                content,
                            };
                            assert(converted@.content =~= seq![SamplingContentView::Text(text@)]);
                            progress.done.push(converted);
                            proof {
                                lemma_message_done(start, progress, converted, replies.len(), 0);
                            }
                        },
                        MessageContentInput::Blocks(blocks) => {
                            progress.open = Some(
                                OpenMessage {
                                    role: message.role,
                                    rest: reversed(blocks),
                                    contents: Vec::new(),
                                },
                            );
                            proof {
                                lemma_message_opened(start, progress, blocks@);
                            }
                        },
                    }
                },
            },
            Some(open) => {
                let mut open = open;
                match open.rest.pop() {
                    None => {
                        let converted = SamplingMessage {
                            role: role_to_sampling(open.role),
                            content: open.contents,
                        };
                        progress.done.push(converted);
                        proof {
                            lemma_message_closed(start, progress, converted);
                        }
                    },
                    Some(block) => {
                        let ghost popped = Progress { open: Some(open), ..start };
                        proof {
                            assert(start.open->0.rest@ =~= open.rest@.push(block));
                            lemma_block_taken(start, popped, block);
                            lemma_block_stops(popped, block@, replies.len());
                            assert(replies.skip(replies.len() as int) =~= Seq::empty());
                        }
                        match input_block_to_sampling(block) {
                            BlockStep::Ready(content) => {
                                open.contents.push(content);
                                progress.open = Some(open);
                                proof {
                                    lemma_block_done(
                                        popped,
                                        progress,
                                        block@,
                                        replies.len(),
                                        content,
                                        0,
                                    );
                                }
                            },
                            BlockStep::Failed(error) => {
                                return ConversionStep::Finished(Err(error));
                            },
                            BlockStep::Download { url, media_type } => {
                                progress.open = Some(open);
                                return ConversionStep::Download(
                                    PendingDownload { progress, url, media_type },
                                );
                            },
                        }
                    },
                }
            },
        }
    }
}

/// Begins to convert a request. Where it insists on one tool, the last
/// message of the user asks for it.
pub fn messages_request_to_sampling(request: MessagesRequest) -> (step: ConversionStep)
    ensures
        step_matches(step, request@, Seq::empty()),
{
    let ghost given = request@;
    let mut messages = request.messages;
    if let Some(tool_name) = required_tool_name(&request.tool_choice) {
        append_required_tool_hint(messages.as_mut_slice(), tool_name);
    }
    let progress = Progress {
        rest: reversed(messages),
        done: Vec::new(),
        open: None,
        settings: MessagesRequest { messages: Vec::new(), ..request },
        request: Ghost(given),
        replies: Ghost(Seq::empty()),
    };
    proof {
        assert(progress.rest@.reverse() =~= messages@);
        assert(progress.messages() =~= conversation(messages@));
        assert(progress.messages().skip(0) =~= progress.messages());
        assert(progress.messages().take(0) =~= Seq::empty());
        assert(sampling_messages(progress.done@) =~= Seq::empty());
        assert(progress.settings@.messages =~= Seq::empty());
    }
    run(progress)
}

impl PendingDownload {
    /// Goes on with what came of asking for the response.
    pub fn resume(self, head: Result<ResponseHead, String>) -> (step: ConversionStep)
        ensures
            step_matches(
                step,
                self.request(),
                self.replies().push(ImageReply { head: head_outcome(head), body: None }),
            ),
    {
        proof {
            use_type_invariant(&self);
        }
        let ghost named = optional_text(self.media_type);
        let ghost block = InputBlockView::Image(
            ImageSourceView::Url { url: self.url@, media_type: named },
        );
        let ghost earlier = self.progress;
        let ghost used = earlier.replies@.len();
        let ghost reply = ImageReply { head: head_outcome(head), body: None };
        let PendingDownload { progress, url, media_type } = self;
        let mut progress = progress;
        progress.replies = Ghost(earlier.replies@.push(reply));
        proof {
            let replies = progress.replies@;
            assert(replies.take(used as int) =~= earlier.replies@.take(used as int));
            lemma_tracks_further(earlier, progress, seq![block], used);
            assert(replies.skip(used as int) =~= seq![reply]);
            lemma_block_stops(progress, block, used);
        }
        match judge_head(url.as_str(), media_type, head) {
            Err(error) => ConversionStep::Finished(Err(error)),
            Ok(mime_type) => ConversionStep::ReadBody(
                PendingBody { progress, url, named: Ghost(named), mime_type },
            ),
        }
    }
}

/// The replies with what came of reading the last body.
pub open spec fn with_body(
    replies: Seq<ImageReply>,
    body: Result<Seq<u8>, Seq<char>>,
) -> Seq<ImageReply> {
    replies.drop_last().push(ImageReply { head: replies.last().head, body: Some(body) })
}

impl PendingBody {
    /// Goes on with what came of reading the body.
    pub fn resume(self, body: Result<Vec<u8>, String>) -> (step: ConversionStep)
        requires
            body matches Ok(bytes) ==> fits_base64(bytes@.len()),
        ensures
            step_matches(step, self.request(), with_body(self.replies(), body_outcome(body))),
    {
        proof {
            use_type_invariant(&self);
        }
        let ghost block = InputBlockView::Image(
            ImageSourceView::Url { url: self.url@, media_type: self.named@ },
        );
        let ghost earlier = self.progress;
        let ghost used = (earlier.replies@.len() - 1) as nat;
        let ghost replies = with_body(earlier.replies@, body_outcome(body));
        let PendingBody { progress, url, named, mime_type } = self;
        let mut progress = progress;
        progress.replies = Ghost(replies);
        proof {
            assert(replies.take(used as int) =~= earlier.replies@.take(used as int));
            lemma_tracks_further(earlier, progress, seq![block], used);
            assert(replies.skip(used as int) =~= seq![replies.last()]);
            lemma_block_stops(progress, block, used);
        }
        let ghost ready = progress;
        match judge_body(url.as_str(), body) {
            Err(error) => ConversionStep::Finished(Err(error)),
            Ok(data) => {
                let content = SamplingContent::Image { data, mime_type };
                match progress.open.take() {
                    None => {
                        proof {
                            assert(false);
                        }
                    },
                    Some(open) => {
                        let mut open = open;
                        open.contents.push(content);
                        progress.open = Some(open);
                    },
                }
                proof {
                    lemma_block_done(ready, progress, block, used, content, 1);
                }
                run(progress)
            },
        }
    }
}

} // verus!
