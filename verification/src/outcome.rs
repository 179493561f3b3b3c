//! What converting a request comes to, given the replies to the downloads
//! that it asked for so far.
use vstd::prelude::*;

use crate::anthropic::{
    ImageSourceView, InputBlockView, MessageContentView, MessageRole, MessageView, RequestView,
    ToolChoiceView, ToolDefinitionView,
};
use crate::error::BridgeErrorView;
use crate::hint::prepared_messages;
use crate::image::{
    body_verdict, media_type_verdict, parsed_scheme, scheme_verdict, ResponseHeadView,
};
use crate::json::object_verdict;
use crate::sampling::{
    sampling_verdict, Role, SamplingContentView, SamplingMessageView, SamplingParamsView,
    SamplingToolView, ToolChoiceMode,
};
use crate::text::joined;

verus! {

/// What came of one download: of asking for the response and then, once it
/// was asked for, of reading the body.
pub struct ImageReply {
    pub head: Result<ResponseHeadView, Seq<char>>,
    pub body: Option<Result<Seq<u8>, Seq<char>>>,
}

/// What must be known before a conversion can go on.
pub enum Query {
    /// The response to a request for this address.
    Head(Seq<char>),
    /// The body of that response.
    Body(Seq<char>),
}

/// What converting something comes to.
#[verifier::ext_equal]
pub enum Outcome<T> {
    /// It was converted, with the first `used` of the replies.
    Done { value: T, used: nat },
    /// It cannot be converted.
    Fails(BridgeErrorView),
    /// The replies do not suffice.
    Wants(Query),
}

/// What converting an image comes to. One in base64 is passed on as it is.
/// One at an address is loaded, if the address and the response allow it.
pub open spec fn image_outcome(source: ImageSourceView, replies: Seq<ImageReply>) -> Outcome<
    SamplingContentView,
> {
    match source {
        ImageSourceView::Base64 { media_type, data } => Outcome::Done {
            value: SamplingContentView::Image { data, mime_type: media_type },
            used: 0,
        },
        ImageSourceView::Url { url, media_type } => match scheme_verdict(url, parsed_scheme(url)) {
            Err(error) => Outcome::Fails(error),
            Ok(()) => if replies.len() == 0 {
                Outcome::Wants(Query::Head(url))
            } else {
                match media_type_verdict(url, media_type, replies[0].head) {
                    Err(error) => Outcome::Fails(error),
                    Ok(mime_type) => match replies[0].body {
                        None => Outcome::Wants(Query::Body(url)),
                        Some(body) => match body_verdict(url, body) {
                            Err(error) => Outcome::Fails(error),
                            Ok(data) => Outcome::Done {
                                value: SamplingContentView::Image { data, mime_type },
                                used: 1,
                            },
                        },
                    },
                }
            },
        },
    }
}

/// What converting a block comes to. The input of a tool must be an object.
pub open spec fn block_outcome(block: InputBlockView, replies: Seq<ImageReply>) -> Outcome<
    SamplingContentView,
> {
    match block {
        InputBlockView::Text(text) => Outcome::Done {
            value: SamplingContentView::Text(text),
            used: 0,
        },
        InputBlockView::Image(source) => image_outcome(source, replies),
        InputBlockView::ToolUse { id, name, input } => match object_verdict(input) {
            Err(error) => Outcome::Fails(error),
            Ok(input) => Outcome::Done {
                value: SamplingContentView::ToolUse { id, name, input },
                used: 0,
            },
        },
        InputBlockView::ToolResult { tool_use_id, is_error, content } => Outcome::Done {
            value: SamplingContentView::ToolResult { tool_use_id, content, is_error },
            used: 0,
        },
    }
}

/// What converting items in order comes to: each uses the replies that the
/// ones before it left, and the first that is not converted ends it.
pub open spec fn in_order<A, T>(
    items: Seq<A>,
    convert: spec_fn(A, Seq<ImageReply>) -> Outcome<T>,
    replies: Seq<ImageReply>,
) -> Outcome<Seq<T>>
    decreases items.len(),
{
    if items.len() == 0 {
        Outcome::Done { value: Seq::empty(), used: 0 }
    } else {
        match in_order(items.drop_last(), convert, replies) {
            Outcome::Done { value, used } => match convert(
                items.last(),
                replies.skip(used as int),
            ) {
                Outcome::Done { value: last, used: more } => Outcome::Done {
                    value: value.push(last),
                    used: used + more,
                },
                Outcome::Fails(error) => Outcome::Fails(error),
                Outcome::Wants(query) => Outcome::Wants(query),
            },
            stop => stop,
        }
    }
}

/// The conversion of a block, as a function.
pub open spec fn block_conversion() -> spec_fn(InputBlockView, Seq<ImageReply>) -> Outcome<
    SamplingContentView,
> {
    |block: InputBlockView, replies: Seq<ImageReply>| block_outcome(block, replies)
}

/// The role of a message in MCP.
pub open spec fn sampling_role(role: MessageRole) -> Role {
    match role {
        MessageRole::User => Role::User,
        MessageRole::Assistant => Role::Assistant,
    }
}

/// What converting a message comes to: plain text is one block.
pub open spec fn message_outcome(message: MessageView, replies: Seq<ImageReply>) -> Outcome<
    SamplingMessageView,
> {
    let role = sampling_role(message.role);
    match message.content {
        MessageContentView::Text(text) => Outcome::Done {
            value: SamplingMessageView { role, content: seq![SamplingContentView::Text(text)] },
            used: 0,
        },
        MessageContentView::Blocks(blocks) => match in_order(
            blocks,
            block_conversion(),
            replies,
        ) {
            Outcome::Done { value, used } => Outcome::Done {
                value: SamplingMessageView { role, content: value },
                used,
            },
            Outcome::Fails(error) => Outcome::Fails(error),
            Outcome::Wants(query) => Outcome::Wants(query),
        },
    }
}

/// The conversion of a message, as a function.
pub open spec fn message_conversion() -> spec_fn(MessageView, Seq<ImageReply>) -> Outcome<
    SamplingMessageView,
> {
    |message: MessageView, replies: Seq<ImageReply>| message_outcome(message, replies)
}

/// A tool in MCP: its schema must be an object.
pub open spec fn tool_verdict(tool: ToolDefinitionView) -> Result<
    SamplingToolView,
    BridgeErrorView,
> {
    match object_verdict(tool.input_schema) {
        Ok(input_schema) => Ok(
            SamplingToolView { name: tool.name, description: tool.description, input_schema },
        ),
        Err(error) => Err(error),
    }
}

/// Tools in MCP: the first that is none ends it.
pub open spec fn tools_verdict(tools: Seq<ToolDefinitionView>) -> Result<
    Seq<SamplingToolView>,
    BridgeErrorView,
>
    decreases tools.len(),
{
    if tools.len() == 0 {
        Ok(Seq::empty())
    } else {
        match tools_verdict(tools.drop_last()) {
            Err(error) => Err(error),
            Ok(converted) => match tool_verdict(tools.last()) {
                Err(error) => Err(error),
                Ok(tool) => Ok(converted.push(tool)),
            },
        }
    }
}

/// A choice of tools in MCP, which has no way to insist on one of them.
pub open spec fn tool_choice_mode(tool_choice: ToolChoiceView) -> ToolChoiceMode {
    match tool_choice {
        ToolChoiceView::Auto => ToolChoiceMode::Auto,
        ToolChoiceView::Any => ToolChoiceMode::Required,
        ToolChoiceView::NoTools => ToolChoiceMode::NoTools,
        ToolChoiceView::Tool(_) => ToolChoiceMode::Required,
    }
}

/// The parameters of a sampling request, from the converted messages and
/// tools and from the rest of the request.
pub open spec fn assembled(
    request: RequestView,
    messages: Seq<SamplingMessageView>,
    tools: Option<Seq<SamplingToolView>>,
) -> SamplingParamsView {
    SamplingParamsView {
        messages,
        max_tokens: request.max_tokens,
        model_hints: seq![request.model],
        system_prompt: match request.system {
            Some(parts) => Some(joined(parts, "\n\n"@)),
            None => None,
        },
        temperature_bits: request.temperature_bits,
        stop_sequences: request.stop_sequences,
        metadata: request.metadata,
        tools,
        tool_choice: match request.tool_choice {
            Some(tool_choice) => Some(tool_choice_mode(tool_choice)),
            None => None,
        },
    }
}

/// The end of a conversion, once the messages are converted: the tools, and
/// the rules of MCP on calls and results of tools.
pub open spec fn params_verdict(
    request: RequestView,
    messages: Seq<SamplingMessageView>,
) -> Result<SamplingParamsView, BridgeErrorView> {
    let tools = match request.tools {
        Some(tools) => match tools_verdict(tools) {
            Ok(tools) => Ok(Some(tools)),
            Err(error) => Err(error),
        },
        None => Ok(None),
    };
    match tools {
        Err(error) => Err(error),
        Ok(tools) => match sampling_verdict(messages) {
            Ok(()) => Ok(assembled(request, messages, tools)),
            Err(reason) => Err(BridgeErrorView::InvalidAnthropicRequest(reason)),
        },
    }
}

/// What converting a request comes to.
pub open spec fn request_outcome(request: RequestView, replies: Seq<ImageReply>) -> Outcome<
    SamplingParamsView,
> {
    match in_order(
        prepared_messages(request.messages, request.tool_choice),
        message_conversion(),
        replies,
    ) {
        Outcome::Done { value, used } => match params_verdict(request, value) {
            Ok(value) => Outcome::Done { value, used },
            Err(error) => Outcome::Fails(error),
        },
        Outcome::Fails(error) => Outcome::Fails(error),
        Outcome::Wants(query) => Outcome::Wants(query),
    }
}

/// Whether an outcome on the replies `r`, if it succeeds, rests on those that
/// it used alone: on replies `s` that begin with the same, it is the same.
pub open spec fn rests_on_used<T>(
    on_r: Outcome<T>,
    r: Seq<ImageReply>,
    on_s: Outcome<T>,
    s: Seq<ImageReply>,
) -> bool {
    on_r matches Outcome::Done { used, .. } ==> {
        &&& used <= r.len()
        &&& (used <= s.len() && s.take(used as int) == r.take(used as int) ==> on_s == on_r)
    }
}

/// Whether a conversion that succeeds rests on the replies that it used alone.
pub open spec fn is_local<A, T>(convert: spec_fn(A, Seq<ImageReply>) -> Outcome<T>) -> bool {
    forall|a: A, r: Seq<ImageReply>, s: Seq<ImageReply>|
        #![trigger convert(a, r), convert(a, s)]
        rests_on_used(convert(a, r), r, convert(a, s), s)
}

/// The conversion of a block rests on the replies that it used alone.
pub proof fn block_conversion_is_local()
    ensures
        is_local(block_conversion()),
{
    let convert = block_conversion();
    assert forall|a: InputBlockView, r: Seq<ImageReply>, s: Seq<ImageReply>|
        #![trigger convert(a, r), convert(a, s)]
        rests_on_used(convert(a, r), r, convert(a, s), s) by {
        if r.len() > 0 && s.len() > 0 {
            assert(s.take(1)[0] == s[0]);
            assert(r.take(1)[0] == r[0]);
        }
    }
}

/// Converting in order rests on the replies that it used alone.
pub proof fn in_order_is_local<A, T>(
    items: Seq<A>,
    convert: spec_fn(A, Seq<ImageReply>) -> Outcome<T>,
    r: Seq<ImageReply>,
    s: Seq<ImageReply>,
)
    requires
        is_local(convert),
    ensures
        rests_on_used(in_order(items, convert, r), r, in_order(items, convert, s), s),
    decreases items.len(),
{
    if items.len() > 0 && in_order(items, convert, r) is Done {
        let first = items.drop_last();
        in_order_is_local(first, convert, r, s);
        let n = in_order(first, convert, r)->used as int;
        let on_r = convert(items.last(), r.skip(n));
        let on_s = convert(items.last(), s.skip(n));
        assert(rests_on_used(on_r, r.skip(n), on_s, s.skip(n)));
        let m = on_r->used as int;
        if n + m <= s.len() && s.take(n + m) == r.take(n + m) {
            assert(s.take(n) =~= s.take(n + m).take(n));
            assert(r.take(n) =~= r.take(n + m).take(n));
            assert(s.skip(n).take(m) =~= s.take(n + m).skip(n));
            assert(r.skip(n).take(m) =~= r.take(n + m).skip(n));
        }
    }
}

/// The conversion of a message rests on the replies that it used alone.
pub proof fn message_conversion_is_local()
    ensures
        is_local(message_conversion()),
{
    block_conversion_is_local();
    let convert = message_conversion();
    assert forall|a: MessageView, r: Seq<ImageReply>, s: Seq<ImageReply>|
        #![trigger convert(a, r), convert(a, s)]
        rests_on_used(convert(a, r), r, convert(a, s), s) by {
        if let MessageContentView::Blocks(blocks) = a.content {
            in_order_is_local(blocks, block_conversion(), r, s);
        }
    }
}

/// Where converting in order stops among the first items, it stops.
pub proof fn in_order_stops<A, T>(
    items: Seq<A>,
    n: int,
    convert: spec_fn(A, Seq<ImageReply>) -> Outcome<T>,
    replies: Seq<ImageReply>,
)
    requires
        0 <= n <= items.len(),
        !(in_order(items.take(n), convert, replies) is Done),
    ensures
        in_order(items, convert, replies) == in_order(items.take(n), convert, replies),
    decreases items.len(),
{
    if n == items.len() {
        assert(items.take(n) =~= items);
    } else {
        assert(items.drop_last().take(n) =~= items.take(n));
        in_order_stops(items.drop_last(), n, convert, replies);
    }
}

} // verus!
