//! What holds of conversions as a whole.
use vstd::prelude::*;

use crate::anthropic::{
    ImageSourceView, InputBlockView, MessageContentView, MessageRole, MessageView, OutputBlockView,
    RequestView, ResponseView, ToolChoiceView, ToolDefinitionView,
};
use crate::error::BridgeErrorView;
use crate::hint::{
    blocks_with_hint, hint_goes_to_last_message_of_user, hint_keeps_blocks, hint_keeps_text,
    is_last_of_user, messages_with_hint, prepared_messages, required_tool, tool_hint,
};
use crate::image::{
    base64_text, content_media_type, content_type_names_media_type,
    content_type_names_one_media_type, is_media_type_of, parsed_scheme, status_line,
    ResponseHeadView,
};
use crate::json::{json_text, JsonView};
use crate::outcome::{
    block_conversion, block_conversion_is_local, block_outcome, image_outcome, in_order,
    in_order_is_local, in_order_stops, is_local, message_conversion, message_conversion_is_local,
    message_outcome, request_outcome, sampling_role, tool_choice_mode, tools_verdict, ImageReply,
    Outcome, Query,
};
use crate::response::{output_block_verdict, response_keeps_blocks, response_verdict};
use crate::sampling::{
    answers_tool, call_is_answered, calls_tool, id_list_text, precedes, refusal, result_is_owed,
    tools_balanced, tools_in_place, unanswered_calls, Role, SampledContentView,
    SamplingContentView, SamplingMessageView, SamplingParamsView, SamplingResultView,
    SamplingToolView, ToolChoiceMode,
};
use crate::text::{
    joined, joined_part_stays_alone, joined_parts_add_up, joined_parts_stand_in_order,
    length_of_all,
};

verus! {

/// Whether a conversion that has all that it needs is settled: replies that
/// come later change nothing.
pub open spec fn is_settled<A, T>(convert: spec_fn(A, Seq<ImageReply>) -> Outcome<T>) -> bool {
    forall|a: A, r: Seq<ImageReply>, s: Seq<ImageReply>|
        #![trigger convert(a, r), convert(a, s)]
        !(convert(a, r) is Wants) && r.is_prefix_of(s) ==> convert(a, s) == convert(a, r)
}

/// Converting in order is settled where each conversion is.
proof fn lemma_in_order_settled<A, T>(
    items: Seq<A>,
    convert: spec_fn(A, Seq<ImageReply>) -> Outcome<T>,
    r: Seq<ImageReply>,
    s: Seq<ImageReply>,
)
    requires
        is_local(convert),
        is_settled(convert),
        r.is_prefix_of(s),
        !(in_order(items, convert, r) is Wants),
    ensures
        in_order(items, convert, s) == in_order(items, convert, r),
    decreases items.len(),
{
    if items.len() > 0 {
        let first = items.drop_last();
        lemma_in_order_settled(first, convert, r, s);
        if let Outcome::Done { value, used } = in_order(first, convert, r) {
            in_order_is_local(first, convert, r, s);
            let n = used as int;
            assert(s.skip(n).subrange(0, r.skip(n).len() as int) =~= r.skip(n)) by {
                assert(s.subrange(0, r.len() as int) =~= r);
                assert forall|i: int| 0 <= i < r.skip(n).len() implies s.skip(n)[i] == r.skip(
                    n,
                )[i] by {
                    assert(s.subrange(0, r.len() as int)[n + i] == r[n + i]);
                }
            }
            assert(r.skip(n).is_prefix_of(s.skip(n)));
            assert(!(convert(items.last(), r.skip(n)) is Wants));
            assert(convert(items.last(), s.skip(n)) == convert(items.last(), r.skip(n)));
        }
    }
}

/// The conversions of blocks and of messages are settled.
proof fn lemma_conversions_settled()
    ensures
        is_settled(block_conversion()),
        is_settled(message_conversion()),
{
    let convert = block_conversion();
    assert forall|a: InputBlockView, r: Seq<ImageReply>, s: Seq<ImageReply>|
        #![trigger convert(a, r), convert(a, s)]
        !(convert(a, r) is Wants) && r.is_prefix_of(s) implies convert(a, s) == convert(a, r) by {
        if r.len() > 0 {
            assert(s.subrange(0, r.len() as int)[0] == s[0]);
        }
    }
    block_conversion_is_local();
    let convert = message_conversion();
    assert forall|a: MessageView, r: Seq<ImageReply>, s: Seq<ImageReply>|
        #![trigger convert(a, r), convert(a, s)]
        !(convert(a, r) is Wants) && r.is_prefix_of(s) implies convert(a, s) == convert(a, r) by {
        if let MessageContentView::Blocks(blocks) = a.content {
            lemma_in_order_settled(blocks, block_conversion(), r, s);
        }
    }
}

/// What a conversion came to, it has come to: replies to downloads that it
/// did not ask for change nothing.
pub proof fn finished_conversion_is_final(
    request: RequestView,
    replies: Seq<ImageReply>,
    further: Seq<ImageReply>,
)
    requires
        replies.is_prefix_of(further),
        !(request_outcome(request, replies) is Wants),
    ensures
        request_outcome(request, further) == request_outcome(request, replies),
{
    lemma_conversions_settled();
    message_conversion_is_local();
    lemma_in_order_settled(
        prepared_messages(request.messages, request.tool_choice),
        message_conversion(),
        replies,
        further,
    );
}

/// Where items were converted in order, each was converted by itself, with
/// the replies that the ones before it left.
proof fn lemma_in_order_each<A, T>(
    items: Seq<A>,
    convert: spec_fn(A, Seq<ImageReply>) -> Outcome<T>,
    replies: Seq<ImageReply>,
    i: int,
) -> (rest: Seq<ImageReply>)
    requires
        in_order(items, convert, replies) is Done,
        0 <= i < items.len(),
    ensures
        in_order(items, convert, replies)->value.len() == items.len(),
        in_order(items.take(i), convert, replies) is Done,
        rest == replies.skip(in_order(items.take(i), convert, replies)->used as int),
        convert(items[i], rest) matches Outcome::Done { value, .. } && value == in_order(
            items,
            convert,
            replies,
        )->value[i],
    decreases items.len(),
{
    let first = items.drop_last();
    if i < first.len() {
        assert(first.take(i) =~= items.take(i));
        lemma_in_order_each(first, convert, replies, i)
    } else {
        assert(items.take(i) =~= first);
        if first.len() > 0 {
            let _ = lemma_in_order_each(first, convert, replies, 0);
        } else {
            assert(in_order(first, convert, replies)->value.len() == 0);
        }
        replies.skip(in_order(first, convert, replies)->used as int)
    }
}

/// As many items come out as went in.
proof fn lemma_in_order_len<A, T>(
    items: Seq<A>,
    convert: spec_fn(A, Seq<ImageReply>) -> Outcome<T>,
    replies: Seq<ImageReply>,
)
    requires
        in_order(items, convert, replies) is Done,
    ensures
        in_order(items, convert, replies)->value.len() == items.len(),
{
    if items.len() > 0 {
        let _ = lemma_in_order_each(items, convert, replies, 0);
    }
}

/// Whether a converted block says what the block said: all of a text, of a
/// call and of a result, and an image that was given in base64 as it was.
/// One that was given by its address is an image.
pub open spec fn says_the_same(block: InputBlockView, content: SamplingContentView) -> bool {
    match block {
        InputBlockView::Text(text) => content == SamplingContentView::Text(text),
        InputBlockView::Image(ImageSourceView::Base64 { media_type, data }) => content
            == (SamplingContentView::Image { data, mime_type: media_type }),
        InputBlockView::Image(ImageSourceView::Url { .. }) => content is Image,
        InputBlockView::ToolUse { id, name, input } => {
            &&& input is Object
            &&& content == (SamplingContentView::ToolUse { id, name, input: input->Object_0 })
        },
        InputBlockView::ToolResult { tool_use_id, is_error, content: given } => content == (
        SamplingContentView::ToolResult { tool_use_id, content: given, is_error }),
    }
}

/// The blocks that a message is made of: plain text is one block.
pub open spec fn blocks_of(content: MessageContentView) -> Seq<InputBlockView> {
    match content {
        MessageContentView::Text(text) => seq![InputBlockView::Text(text)],
        MessageContentView::Blocks(blocks) => blocks,
    }
}

/// A request that is accepted is passed on message by message and block by
/// block: none is lost, added or moved, each message has its speaker, and
/// each block says what it said.
pub proof fn conversion_keeps_conversation(
    request: RequestView,
    replies: Seq<ImageReply>,
    i: int,
    j: int,
)
    requires
        request_outcome(request, replies) is Done,
    ensures
        ({
            let sent = prepared_messages(request.messages, request.tool_choice);
            let messages = request_outcome(request, replies)->value.messages;
            &&& messages.len() == sent.len()
            &&& 0 <= i < sent.len() ==> {
                let blocks = blocks_of(sent[i].content);
                &&& messages[i].role == sampling_role(sent[i].role)
                &&& messages[i].content.len() == blocks.len()
                &&& 0 <= j < blocks.len() ==> says_the_same(blocks[j], messages[i].content[j])
            }
        }),
{
    let sent = prepared_messages(request.messages, request.tool_choice);
    lemma_in_order_len(sent, message_conversion(), replies);
    if 0 <= i < sent.len() {
        let rest = lemma_in_order_each(sent, message_conversion(), replies, i);
        if let MessageContentView::Blocks(blocks) = sent[i].content {
            lemma_in_order_len(blocks, block_conversion(), rest);
            if 0 <= j < blocks.len() {
                let _ = lemma_in_order_each(blocks, block_conversion(), rest, j);
            }
        }
    }
}

/// A request that is accepted keeps its settings: the model as the one to
/// prefer, the limit of tokens, the system prompt with its parts joined, the
/// temperature, the stop sequences, the metadata, whether tools are called,
/// and the tools with their schemas.
pub proof fn conversion_keeps_settings(request: RequestView, replies: Seq<ImageReply>)
    requires
        request_outcome(request, replies) is Done,
    ensures
        ({
            let params = request_outcome(request, replies)->value;
            &&& params.model_hints == seq![request.model]
            &&& params.max_tokens == request.max_tokens
            &&& params.temperature_bits == request.temperature_bits
            &&& params.stop_sequences == request.stop_sequences
            &&& params.metadata == request.metadata
            &&& match request.system {
                Some(parts) => params.system_prompt == Some(joined(parts, "\n\n"@)),
                None => params.system_prompt is None,
            }
            &&& match request.tool_choice {
                Some(choice) => params.tool_choice == Some(tool_choice_mode(choice)),
                None => params.tool_choice is None,
            }
            &&& match request.tools {
                Some(tools) => params.tools matches Some(sent) && tools_verdict(tools)
                    == Ok::<_, BridgeErrorView>(sent),
                None => params.tools is None,
            }
        }),
{
}

/// Tools keep their number, their order, their names and descriptions, and
/// their schemas, which must be objects.
pub proof fn tools_keep_what_they_are(tools: Seq<ToolDefinitionView>)
    ensures
        tools_verdict(tools) is Ok <==> forall|i: int|
            0 <= i < tools.len() ==> (#[trigger] tools[i]).input_schema is Object,
        tools_verdict(tools) matches Ok(sent) ==> {
            &&& sent.len() == tools.len()
            &&& forall|i: int|
                0 <= i < tools.len() ==> #[trigger] sent[i] == (SamplingToolView {
                    name: tools[i].name,
                    description: tools[i].description,
                    input_schema: tools[i].input_schema->Object_0,
                })
        },
    decreases tools.len(),
{
    if tools.len() > 0 {
        let first = tools.drop_last();
        let last = tools.len() - 1;
        tools_keep_what_they_are(first);
        if tools_verdict(tools) is Ok {
            assert forall|i: int| 0 <= i < tools.len() implies (
            #[trigger] tools[i]).input_schema is Object by {
                if i < last {
                    assert(first[i] == tools[i]);
                }
            }
        } else if forall|i: int|
            0 <= i < tools.len() ==> (#[trigger] tools[i]).input_schema is Object {
            assert forall|i: int| 0 <= i < first.len() implies (
            #[trigger] first[i]).input_schema is Object by {
                assert(first[i] == tools[i]);
            }
            assert(tools[last].input_schema is Object);
        }
    }
}

/// The sum of what items weigh.
pub open spec fn total<A>(items: Seq<A>, weight: spec_fn(A) -> nat) -> nat
    decreases items.len(),
{
    if items.len() == 0 {
        0
    } else {
        total(items.drop_last(), weight) + weight(items.last())
    }
}

/// How many images a block names by address.
pub open spec fn addresses_in_block() -> spec_fn(InputBlockView) -> nat {
    |block: InputBlockView|
        match block {
            InputBlockView::Image(ImageSourceView::Url { .. }) => 1,
            _ => 0,
        }
}

/// How many images a message names by address.
pub open spec fn addresses_in_message() -> spec_fn(MessageView) -> nat {
    |message: MessageView| total(blocks_of(message.content), addresses_in_block())
}

/// How many images a conversation names by address.
pub open spec fn addresses(messages: Seq<MessageView>) -> nat {
    total(messages, addresses_in_message())
}

/// Whether all downloads were carried through to the body.
pub open spec fn carried_through(replies: Seq<ImageReply>) -> bool {
    forall|i: int| 0 <= i < replies.len() ==> (#[trigger] replies[i]).body is Some
}

/// Whether so many replies suffice for a conversion, which uses no more.
spec fn suffices<A, T>(
    convert: spec_fn(A, Seq<ImageReply>) -> Outcome<T>,
    weight: spec_fn(A) -> nat,
) -> bool {
    forall|a: A, r: Seq<ImageReply>|
        carried_through(r) && r.len() >= weight(a) ==> {
            &&& !(#[trigger] convert(a, r) is Wants)
            &&& convert(a, r) matches Outcome::Done { used, .. } ==> used <= weight(a)
        }
}

/// Where replies suffice for each of the items, they suffice for all.
proof fn lemma_in_order_suffices<A, T>(
    items: Seq<A>,
    convert: spec_fn(A, Seq<ImageReply>) -> Outcome<T>,
    weight: spec_fn(A) -> nat,
    replies: Seq<ImageReply>,
)
    requires
        suffices(convert, weight),
        carried_through(replies),
        replies.len() >= total(items, weight),
    ensures
        !(in_order(items, convert, replies) is Wants),
        in_order(items, convert, replies) matches Outcome::Done { used, .. } ==> used <= total(
            items,
            weight,
        ),
    decreases items.len(),
{
    if items.len() > 0 {
        let first = items.drop_last();
        lemma_in_order_suffices(first, convert, weight, replies);
        if in_order(first, convert, replies) is Done {
            let n = in_order(first, convert, replies)->used as int;
            let rest = replies.skip(n);
            assert(carried_through(rest)) by {
                assert forall|i: int| 0 <= i < rest.len() implies (
                #[trigger] rest[i]).body is Some by {
                    assert(rest[i] == replies[n + i]);
                }
            }
            assert(!(convert(items.last(), rest) is Wants));
        }
    }
}

/// Whether a conversion that succeeds uses exactly so many replies.
spec fn uses_exactly<A, T>(
    convert: spec_fn(A, Seq<ImageReply>) -> Outcome<T>,
    weight: spec_fn(A) -> nat,
) -> bool {
    forall|a: A, r: Seq<ImageReply>| #[trigger]
        convert(a, r) matches Outcome::Done { used, .. } ==> used == weight(a)
}

/// Converting in order uses the replies that the items use.
proof fn lemma_in_order_uses<A, T>(
    items: Seq<A>,
    convert: spec_fn(A, Seq<ImageReply>) -> Outcome<T>,
    weight: spec_fn(A) -> nat,
    replies: Seq<ImageReply>,
)
    requires
        uses_exactly(convert, weight),
    ensures
        in_order(items, convert, replies) matches Outcome::Done { used, .. } ==> used == total(
            items,
            weight,
        ),
    decreases items.len(),
{
    if items.len() > 0 {
        lemma_in_order_uses(items.drop_last(), convert, weight, replies);
    }
}

/// The conversion of a message uses one reply for each address in it.
proof fn lemma_message_uses()
    ensures
        uses_exactly(message_conversion(), addresses_in_message()),
{
    assert(uses_exactly(block_conversion(), addresses_in_block()));
    let convert = message_conversion();
    let weight = addresses_in_message();
    assert forall|a: MessageView, r: Seq<ImageReply>| #[trigger]
        convert(a, r) matches Outcome::Done { .. } implies convert(a, r)->used == weight(a) by {
        match a.content {
            MessageContentView::Text(text) => {
                reveal_with_fuel(total, 2);
                assert(blocks_of(a.content).last() == InputBlockView::Text(text));
            },
            MessageContentView::Blocks(blocks) => {
                lemma_in_order_uses(blocks, block_conversion(), addresses_in_block(), r);
            },
        }
    }
}

/// A hint names no image: blocks name as many by address as without it.
proof fn lemma_hint_adds_no_address_to_blocks(blocks: Seq<InputBlockView>, hint: Seq<char>)
    ensures
        total(blocks_with_hint(blocks, hint), addresses_in_block()) == total(
            blocks,
            addresses_in_block(),
        ),
{
    let hinted = blocks_with_hint(blocks, hint);
    if blocks.len() > 0 && blocks.last() is Text {
        assert(hinted.drop_last() =~= blocks.drop_last());
    } else {
        assert(hinted.drop_last() =~= blocks);
    }
}

/// A hint names no image: messages name as many by address as without it.
proof fn lemma_hint_adds_no_address(messages: Seq<MessageView>, hint: Seq<char>)
    ensures
        addresses(messages_with_hint(messages, hint)) == addresses(messages),
    decreases messages.len(),
{
    if messages.len() > 0 {
        let hinted = messages_with_hint(messages, hint);
        let first = messages.drop_last();
        if messages.last().role == MessageRole::User {
            assert(hinted.drop_last() =~= first);
            match messages.last().content {
                MessageContentView::Text(text) => {
                    let plain = blocks_of(messages.last().content);
                    let with_hint = blocks_of(hinted.last().content);
                    assert(plain.drop_last() =~= with_hint.drop_last());
                },
                MessageContentView::Blocks(blocks) => {
                    lemma_hint_adds_no_address_to_blocks(blocks, hint);
                },
            }
        } else {
            lemma_hint_adds_no_address(first, hint);
            assert(hinted.drop_last() =~= messages_with_hint(first, hint));
        }
    }
}

/// A conversion that succeeds has used one download for each image that is
/// named by address.
pub proof fn one_download_for_each_address(request: RequestView, replies: Seq<ImageReply>)
    requires
        request_outcome(request, replies) is Done,
    ensures
        request_outcome(request, replies)->used == addresses(request.messages),
{
    if let Some(name) = required_tool(request.tool_choice) {
        lemma_hint_adds_no_address(request.messages, tool_hint(name));
    }
    lemma_message_uses();
    lemma_in_order_uses(
        prepared_messages(request.messages, request.tool_choice),
        message_conversion(),
        addresses_in_message(),
        replies,
    );
}

/// A conversion asks for one download for each image that is named by address
/// and for no more: with as many downloads carried through it has finished.
pub proof fn conversion_finishes(request: RequestView, replies: Seq<ImageReply>)
    requires
        carried_through(replies),
        replies.len() >= addresses(request.messages),
    ensures
        !(request_outcome(request, replies) is Wants),
        request_outcome(request, replies) matches Outcome::Done { used, .. } ==> used == addresses(
            request.messages,
        ),
{
    assert(suffices(block_conversion(), addresses_in_block()));
    let convert = message_conversion();
    let weight = addresses_in_message();
    assert forall|a: MessageView, r: Seq<ImageReply>|
        carried_through(r) && r.len() >= weight(a) implies {
        &&& !(#[trigger] convert(a, r) is Wants)
        &&& convert(a, r) matches Outcome::Done { used: n, .. } ==> n <= weight(a)
    } by {
        if let MessageContentView::Blocks(blocks) = a.content {
            lemma_in_order_suffices(blocks, block_conversion(), addresses_in_block(), r);
        }
    }
    if let Some(name) = required_tool(request.tool_choice) {
        lemma_hint_adds_no_address(request.messages, tool_hint(name));
    }
    let sent = prepared_messages(request.messages, request.tool_choice);
    lemma_in_order_suffices(sent, convert, weight, replies);
    if request_outcome(request, replies) is Done {
        one_download_for_each_address(request, replies);
    }
}

/// A block as it is passed on, if it needs no download and its input, if it
/// has one, is an object.
pub open spec fn passed_on_block(block: InputBlockView) -> SamplingContentView {
    match block {
        InputBlockView::Text(text) => SamplingContentView::Text(text),
        InputBlockView::Image(ImageSourceView::Base64 { media_type, data }) => {
            SamplingContentView::Image { data, mime_type: media_type }
        },
        InputBlockView::Image(ImageSourceView::Url { .. }) => arbitrary(),
        InputBlockView::ToolUse { id, name, input } => SamplingContentView::ToolUse {
            id,
            name,
            input: input->Object_0,
        },
        InputBlockView::ToolResult { tool_use_id, is_error, content } => {
            SamplingContentView::ToolResult { tool_use_id, content, is_error }
        },
    }
}

/// A message as it is passed on.
pub open spec fn passed_on_message(message: MessageView) -> SamplingMessageView {
    let blocks = blocks_of(message.content);
    SamplingMessageView {
        role: sampling_role(message.role),
        content: Seq::new(blocks.len(), |j: int| passed_on_block(blocks[j])),
    }
}

/// A conversation as it is passed on.
pub open spec fn passed_on(messages: Seq<MessageView>) -> Seq<SamplingMessageView> {
    Seq::new(messages.len(), |i: int| passed_on_message(messages[i]))
}

/// Whether a block needs no download.
pub open spec fn at_hand(block: InputBlockView) -> bool {
    !(block matches InputBlockView::Image(source) && source is Url)
}

/// Whether the input of a call is an object.
pub open spec fn well_called(block: InputBlockView) -> bool {
    block matches InputBlockView::ToolUse { input, .. } ==> input is Object
}

/// Blocks that need no download are all converted exactly if the input of
/// each call is an object.
proof fn lemma_blocks_at_hand(blocks: Seq<InputBlockView>, replies: Seq<ImageReply>)
    requires
        forall|j: int| 0 <= j < blocks.len() ==> at_hand(#[trigger] blocks[j]),
    ensures
        in_order(blocks, block_conversion(), replies) is Done <==> forall|j: int|
            0 <= j < blocks.len() ==> well_called(#[trigger] blocks[j]),
        in_order(blocks, block_conversion(), replies) matches Outcome::Done { value, used: n }
            ==> n == 0 && value == Seq::new(blocks.len(), |j: int| passed_on_block(blocks[j])),
        !(in_order(blocks, block_conversion(), replies) is Wants),
    decreases blocks.len(),
{
    if blocks.len() > 0 {
        let first = blocks.drop_last();
        let last = blocks.len() - 1;
        assert forall|j: int| 0 <= j < first.len() implies at_hand(#[trigger] first[j]) by {
            assert(first[j] == blocks[j]);
        }
        lemma_blocks_at_hand(first, replies);
        assert(at_hand(blocks[last]));
        let outcome = in_order(blocks, block_conversion(), replies);
        if outcome is Done {
            assert forall|j: int| 0 <= j < blocks.len() implies well_called(
                #[trigger] blocks[j],
            ) by {
                if j < last {
                    assert(well_called(first[j]));
                }
            }
            assert(outcome->value =~= Seq::new(
                blocks.len(),
                |j: int| passed_on_block(blocks[j]),
            ));
        } else if forall|j: int| 0 <= j < blocks.len() ==> well_called(#[trigger] blocks[j]) {
            assert forall|j: int| 0 <= j < first.len() implies well_called(
                #[trigger] first[j],
            ) by {
                assert(first[j] == blocks[j]);
            }
            assert(well_called(blocks[last]));
        }
    }
}

/// Whether all blocks of a message need no download.
pub open spec fn message_at_hand(message: MessageView) -> bool {
    forall|j: int|
        0 <= j < blocks_of(message.content).len() ==> at_hand(
            #[trigger] blocks_of(message.content)[j],
        )
}

/// Whether the input of each call of a message is an object.
pub open spec fn message_well_called(message: MessageView) -> bool {
    forall|j: int|
        0 <= j < blocks_of(message.content).len() ==> well_called(
            #[trigger] blocks_of(message.content)[j],
        )
}

/// A message that needs no download is converted exactly if the input of each
/// of its calls is an object.
proof fn lemma_message_at_hand(message: MessageView, replies: Seq<ImageReply>)
    requires
        message_at_hand(message),
    ensures
        message_outcome(message, replies) is Done <==> message_well_called(message),
        message_outcome(message, replies) matches Outcome::Done { value, used: n } ==> n == 0
            && value == passed_on_message(message),
        !(message_outcome(message, replies) is Wants),
{
    match message.content {
        MessageContentView::Text(text) => {
            assert(passed_on_message(message).content =~= seq![SamplingContentView::Text(text)]);
        },
        MessageContentView::Blocks(blocks) => {
            lemma_blocks_at_hand(blocks, replies);
        },
    }
}

/// Messages that need no download are all converted exactly if the input of
/// each call is an object.
proof fn lemma_messages_at_hand(messages: Seq<MessageView>, replies: Seq<ImageReply>)
    requires
        forall|i: int| 0 <= i < messages.len() ==> message_at_hand(#[trigger] messages[i]),
    ensures
        in_order(messages, message_conversion(), replies) is Done <==> forall|i: int|
            0 <= i < messages.len() ==> message_well_called(#[trigger] messages[i]),
        in_order(messages, message_conversion(), replies) matches Outcome::Done {
            value,
            used: n,
        } ==> n == 0 && value == passed_on(messages),
        !(in_order(messages, message_conversion(), replies) is Wants),
    decreases messages.len(),
{
    if messages.len() > 0 {
        let first = messages.drop_last();
        let last = messages.len() - 1;
        assert forall|i: int| 0 <= i < first.len() implies message_at_hand(
            #[trigger] first[i],
        ) by {
            assert(first[i] == messages[i]);
        }
        lemma_messages_at_hand(first, replies);
        assert(message_at_hand(messages[last]));
        let outcome = in_order(messages, message_conversion(), replies);
        if in_order(first, message_conversion(), replies) is Done {
            lemma_message_at_hand(messages[last], replies.skip(0));
        }
        if outcome is Done {
            assert forall|i: int| 0 <= i < messages.len() implies message_well_called(
                #[trigger] messages[i],
            ) by {
                if i < last {
                    assert(message_well_called(first[i]));
                }
            }
            assert(outcome->value =~= passed_on(messages));
        } else if forall|i: int|
            0 <= i < messages.len() ==> message_well_called(#[trigger] messages[i]) {
            assert forall|i: int| 0 <= i < first.len() implies message_well_called(
                #[trigger] first[i],
            ) by {
                assert(first[i] == messages[i]);
            }
            assert(message_well_called(messages[last]));
        }
    }
}

/// A message with a hint needs no download where the message needs none.
proof fn lemma_hint_needs_no_download(messages: Seq<MessageView>, hint: Seq<char>, i: int)
    requires
        0 <= i < messages.len(),
        message_at_hand(messages[i]),
    ensures
        message_at_hand(messages_with_hint(messages, hint)[i]),
{
    hint_goes_to_last_message_of_user(messages, hint, i);
    let given = blocks_of(messages[i].content);
    let blocks = blocks_of(messages_with_hint(messages, hint)[i].content);
    assert forall|j: int| 0 <= j < blocks.len() implies at_hand(#[trigger] blocks[j]) by {
        if j < given.len() {
            assert(at_hand(given[j]));
        }
    }
}

/// A request without images by address is answered at once. It is accepted
/// exactly if the input of each call and the schema of each tool is an object
/// and calls and results of tools are in place and match. What is passed on
/// is the conversation as it is sent on, block by block.
pub proof fn request_at_hand_is_accepted_iff(request: RequestView, replies: Seq<ImageReply>)
    requires
        forall|i: int|
            0 <= i < request.messages.len() ==> message_at_hand(#[trigger] request.messages[i]),
    ensures
        ({
            let sent = prepared_messages(request.messages, request.tool_choice);
            let outcome = request_outcome(request, replies);
            &&& outcome is Done <==> {
                &&& forall|i: int|
                    0 <= i < sent.len() ==> message_well_called(#[trigger] sent[i])
                &&& request.tools matches Some(tools) ==> forall|i: int|
                    0 <= i < tools.len() ==> (#[trigger] tools[i]).input_schema is Object
                &&& tools_balanced(passed_on(sent))
            }
            &&& outcome matches Outcome::Done { value: params, used: n } ==> n == 0
                && params.messages == passed_on(sent)
            &&& !(outcome is Wants)
        }),
{
    let sent = prepared_messages(request.messages, request.tool_choice);
    assert forall|i: int| 0 <= i < sent.len() implies message_at_hand(#[trigger] sent[i]) by {
        if let Some(name) = required_tool(request.tool_choice) {
            lemma_hint_keeps_len(request.messages, tool_hint(name));
            lemma_hint_needs_no_download(request.messages, tool_hint(name), i);
        }
    }
    lemma_messages_at_hand(sent, replies);
    if let Some(tools) = request.tools {
        tools_keep_what_they_are(tools);
    }
}

/// Whether a block is text, or an image in base64.
pub open spec fn is_plain(block: InputBlockView) -> bool {
    match block {
        InputBlockView::Text(_) => true,
        InputBlockView::Image(source) => source is Base64,
        _ => false,
    }
}

/// A conversation of texts and images in base64, without calls and results of
/// tools, is accepted, whoever speaks when, if the schema of each tool is an
/// object.
pub proof fn plain_conversation_is_accepted(request: RequestView, replies: Seq<ImageReply>)
    requires
        forall|i: int, j: int|
            0 <= i < request.messages.len() && 0 <= j < blocks_of(
                request.messages[i].content,
            ).len() ==> is_plain(#[trigger] blocks_of(request.messages[i].content)[j]),
        request.tools matches Some(tools) ==> forall|i: int|
            0 <= i < tools.len() ==> (#[trigger] tools[i]).input_schema is Object,
    ensures
        request_outcome(request, replies) is Done,
{
    let sent = prepared_messages(request.messages, request.tool_choice);
    assert forall|i: int, j: int|
        0 <= i < sent.len() && 0 <= j < blocks_of(sent[i].content).len() implies is_plain(
        #[trigger] blocks_of(sent[i].content)[j],
    ) by {
        if let Some(name) = required_tool(request.tool_choice) {
            let hint = tool_hint(name);
            lemma_hint_keeps_len(request.messages, hint);
            hint_goes_to_last_message_of_user(request.messages, hint, i);
            let given = blocks_of(request.messages[i].content);
            if is_last_of_user(request.messages, i) {
                if let MessageContentView::Blocks(blocks) = request.messages[i].content {
                    if j < blocks.len() {
                        assert(is_plain(given[j]));
                    }
                }
            } else {
                assert(is_plain(given[j]));
            }
        }
    }
    assert forall|i: int| 0 <= i < request.messages.len() implies message_at_hand(
        #[trigger] request.messages[i],
    ) by {
        assert forall|j: int|
            0 <= j < blocks_of(request.messages[i].content).len() implies at_hand(
            #[trigger] blocks_of(request.messages[i].content)[j],
        ) by {
            assert(is_plain(blocks_of(request.messages[i].content)[j]));
        }
    }
    assert forall|i: int| 0 <= i < sent.len() implies message_well_called(#[trigger] sent[i]) by {
        assert forall|j: int| 0 <= j < blocks_of(sent[i].content).len() implies well_called(
            #[trigger] blocks_of(sent[i].content)[j],
        ) by {
            assert(is_plain(blocks_of(sent[i].content)[j]));
        }
    }
    let passed = passed_on(sent);
    assert forall|i: int, j: int|
        0 <= i < passed.len() && 0 <= j < passed[i].content.len() implies !(
    #[trigger] passed[i].content[j] is ToolUse) && !(passed[i].content[j] is ToolResult) by {
        assert(is_plain(blocks_of(sent[i].content)[j]));
    }
    assert(tools_balanced(passed)) by {
        assert forall|i: int| 0 <= i < passed.len() implies tools_in_place(
            #[trigger] passed[i],
        ) by {
            assert forall|j: int| 0 <= j < passed[i].content.len() implies !(
            #[trigger] passed[i].content[j] is ToolUse) && !(
            passed[i].content[j] is ToolResult) by {}
        }
    }
    request_at_hand_is_accepted_iff(request, replies);
}

/// A hint adds no message.
proof fn lemma_hint_keeps_len(messages: Seq<MessageView>, hint: Seq<char>)
    ensures
        messages_with_hint(messages, hint).len() == messages.len(),
{
    if messages.len() > 0 {
        hint_goes_to_last_message_of_user(messages, hint, 0);
    }
}

/// Items in order, each changed with the replies that the ones before it left.
pub open spec fn changed_in_order<A, T>(
    items: Seq<A>,
    convert: spec_fn(A, Seq<ImageReply>) -> Outcome<T>,
    change: spec_fn(A, Seq<ImageReply>) -> A,
    replies: Seq<ImageReply>,
) -> Seq<A>
    decreases items.len(),
{
    if items.len() == 0 {
        items
    } else {
        let first = items.drop_last();
        changed_in_order(first, convert, change, replies).push(
            change(items.last(), replies.skip(in_order(first, convert, replies)->used as int)),
        )
    }
}

/// A block in which an image that is named by address is given in base64, as
/// the reply to its download brought it.
pub open spec fn inlined_block() -> spec_fn(InputBlockView, Seq<ImageReply>) -> InputBlockView {
    |block: InputBlockView, replies: Seq<ImageReply>|
        match (block, block_outcome(block, replies)) {
            (
                InputBlockView::Image(_),
                Outcome::Done { value: SamplingContentView::Image { data, mime_type }, .. },
            ) => InputBlockView::Image(ImageSourceView::Base64 { media_type: mime_type, data }),
            _ => block,
        }
}

/// A message with its images in base64.
pub open spec fn inlined_message() -> spec_fn(MessageView, Seq<ImageReply>) -> MessageView {
    |message: MessageView, replies: Seq<ImageReply>|
        match message.content {
            MessageContentView::Text(_) => message,
            MessageContentView::Blocks(blocks) => MessageView {
                role: message.role,
                content: MessageContentView::Blocks(
                    changed_in_order(blocks, block_conversion(), inlined_block(), replies),
                ),
            },
        }
}

/// A conversation with its images in base64.
pub open spec fn inlined(messages: Seq<MessageView>, replies: Seq<ImageReply>) -> Seq<MessageView> {
    changed_in_order(messages, message_conversion(), inlined_message(), replies)
}

/// Whether a changed item is converted, without any reply, to what the item
/// is converted to.
spec fn change_settles<A, T>(
    convert: spec_fn(A, Seq<ImageReply>) -> Outcome<T>,
    change: spec_fn(A, Seq<ImageReply>) -> A,
) -> bool {
    forall|a: A, r: Seq<ImageReply>, s: Seq<ImageReply>|
        #![trigger convert(change(a, r), s)]
        convert(a, r) matches Outcome::Done { value, .. } ==> convert(change(a, r), s)
            == Outcome::<T>::Done { value, used: 0 }
}

/// Changed items are converted in order, without any reply, to what the items
/// are converted to.
proof fn lemma_change_settles<A, T>(
    items: Seq<A>,
    convert: spec_fn(A, Seq<ImageReply>) -> Outcome<T>,
    change: spec_fn(A, Seq<ImageReply>) -> A,
    r: Seq<ImageReply>,
    s: Seq<ImageReply>,
)
    requires
        change_settles(convert, change),
        in_order(items, convert, r) is Done,
    ensures
        in_order(changed_in_order(items, convert, change, r), convert, s) == (Outcome::Done {
            value: in_order(items, convert, r)->value,
            used: 0,
        }),
    decreases items.len(),
{
    if items.len() > 0 {
        let first = items.drop_last();
        let rest = r.skip(in_order(first, convert, r)->used as int);
        lemma_change_settles(first, convert, change, r, s);
        let changed = changed_in_order(items, convert, change, r);
        assert(changed.drop_last() =~= changed_in_order(first, convert, change, r));
        assert(changed.last() == change(items.last(), rest));
        assert(convert(change(items.last(), rest), s.skip(0)) == (Outcome::<T>::Done {
            value: convert(items.last(), rest)->value,
            used: 0,
        }));
    }
}

/// Images in base64 settle the conversion of blocks and of messages.
proof fn lemma_inlined_settles()
    ensures
        change_settles(block_conversion(), inlined_block()),
        change_settles(message_conversion(), inlined_message()),
{
    assert(change_settles(block_conversion(), inlined_block()));
    let convert = message_conversion();
    let change = inlined_message();
    assert forall|a: MessageView, r: Seq<ImageReply>, s: Seq<ImageReply>|
        #![trigger convert(change(a, r), s)]
        convert(a, r) matches Outcome::Done { value, .. } implies convert(change(a, r), s)
        == (Outcome::<SamplingMessageView>::Done { value: convert(a, r)->value, used: 0 }) by {
        if let MessageContentView::Blocks(blocks) = a.content {
            lemma_change_settles(blocks, block_conversion(), inlined_block(), r, s);
        }
    }
}

/// Blocks with a hint use the replies that the blocks use.
proof fn lemma_hint_uses_no_reply_in_blocks(
    blocks: Seq<InputBlockView>,
    hint: Seq<char>,
    replies: Seq<ImageReply>,
)
    ensures
        in_order(
            blocks_with_hint(blocks, hint),
            block_conversion(),
            replies,
        ) matches Outcome::Done { used: n, .. } ==> (in_order(blocks, block_conversion(), replies) matches Outcome::Done { used: m, .. }
            && m == n),
{
    let hinted = blocks_with_hint(blocks, hint);
    if blocks.len() > 0 && blocks.last() is Text {
        assert(hinted.drop_last() =~= blocks.drop_last());
    } else {
        assert(hinted.drop_last() =~= blocks);
    }
}

/// Messages with a hint use the replies that the messages use.
proof fn lemma_hint_uses_no_reply(
    messages: Seq<MessageView>,
    hint: Seq<char>,
    replies: Seq<ImageReply>,
)
    ensures
        in_order(
            messages_with_hint(messages, hint),
            message_conversion(),
            replies,
        ) matches Outcome::Done { used: n, .. } ==> (in_order(messages, message_conversion(), replies) matches Outcome::Done {
            used: m,
            ..
        } && m == n),
    decreases messages.len(),
{
    if messages.len() > 0 {
        let first = messages.drop_last();
        let hinted = messages_with_hint(messages, hint);
        if messages.last().role == MessageRole::User {
            assert(hinted.drop_last() =~= first);
            if let MessageContentView::Blocks(blocks) = messages.last().content {
                let n = in_order(first, message_conversion(), replies)->used;
                let rest = replies.skip(n as int);
                lemma_hint_uses_no_reply_in_blocks(blocks, hint, rest);
            }
        } else {
            assert(hinted.drop_last() =~= messages_with_hint(first, hint));
            lemma_hint_uses_no_reply(first, hint, replies);
        }
    }
}

/// It is the same to give images in base64 and then put a hint behind the
/// blocks, or the other way round.
proof fn lemma_hint_on_inlined_blocks(
    blocks: Seq<InputBlockView>,
    hint: Seq<char>,
    replies: Seq<ImageReply>,
)
    ensures
        blocks_with_hint(
            changed_in_order(blocks, block_conversion(), inlined_block(), replies),
            hint,
        ) == changed_in_order(
            blocks_with_hint(blocks, hint),
            block_conversion(),
            inlined_block(),
            replies,
        ),
{
    let convert = block_conversion();
    let change = inlined_block();
    let hinted = blocks_with_hint(blocks, hint);
    let inlined_blocks = changed_in_order(blocks, convert, change, replies);
    let lhs = blocks_with_hint(inlined_blocks, hint);
    let rhs = changed_in_order(hinted, convert, change, replies);
    if blocks.len() > 0 && blocks.last() is Text {
        assert(hinted.drop_last() =~= blocks.drop_last());
        assert(inlined_blocks.drop_last() =~= changed_in_order(
            blocks.drop_last(),
            convert,
            change,
            replies,
        ));
        assert(lhs =~= rhs);
    } else {
        assert(hinted.drop_last() =~= blocks);
        assert(inlined_blocks.len() > 0 ==> !(inlined_blocks.last() is Text));
        assert(lhs =~= rhs);
    }
}

/// It is the same to give images in base64 and then put a hint into the
/// conversation, or the other way round.
proof fn lemma_hint_on_inlined(
    messages: Seq<MessageView>,
    hint: Seq<char>,
    replies: Seq<ImageReply>,
)
    requires
        in_order(messages_with_hint(messages, hint), message_conversion(), replies) is Done,
    ensures
        messages_with_hint(inlined(messages, replies), hint) == inlined(
            messages_with_hint(messages, hint),
            replies,
        ),
    decreases messages.len(),
{
    if messages.len() > 0 {
        let first = messages.drop_last();
        let hinted = messages_with_hint(messages, hint);
        let all = inlined(messages, replies);
        assert(all.drop_last() =~= inlined(first, replies));
        if messages.last().role == MessageRole::User {
            assert(hinted.drop_last() =~= first);
            if let MessageContentView::Blocks(blocks) = messages.last().content {
                let n = in_order(first, message_conversion(), replies)->used;
                let rest = replies.skip(n as int);
                lemma_hint_on_inlined_blocks(blocks, hint, rest);
            }
        } else {
            assert(hinted.drop_last() =~= messages_with_hint(first, hint));
            lemma_hint_uses_no_reply(first, hint, replies);
            lemma_hint_on_inlined(first, hint, replies);
        }
        assert(messages_with_hint(all, hint) =~= inlined(hinted, replies));
    }
}

/// An image by address is as good as the same image in base64: a request that
/// is accepted with its downloads is accepted without any where the images
/// that were downloaded are given in base64, and what is passed on is the same.
pub proof fn downloaded_image_is_as_inlined(
    request: RequestView,
    replies: Seq<ImageReply>,
    others: Seq<ImageReply>,
)
    requires
        request_outcome(request, replies) is Done,
    ensures
        request_outcome(
            RequestView { messages: inlined(request.messages, replies), ..request },
            others,
        ) == (Outcome::Done { value: request_outcome(request, replies)->value, used: 0 }),
{
    let sent = prepared_messages(request.messages, request.tool_choice);
    lemma_inlined_settles();
    lemma_change_settles(sent, message_conversion(), inlined_message(), replies, others);
    if let Some(name) = required_tool(request.tool_choice) {
        lemma_hint_on_inlined(request.messages, tool_hint(name), replies);
    }
}

/// A request that insists on one tool is passed on as one that requires some
/// tool, and the last message of the user ends with the sentence that asks
/// for the one.
pub proof fn insisting_on_tool_asks_for_it(
    request: RequestView,
    replies: Seq<ImageReply>,
    name: Seq<char>,
    i: int,
)
    requires
        request.tool_choice == Some(ToolChoiceView::Tool(name)),
        is_last_of_user(request.messages, i),
        request_outcome(request, replies) is Done,
    ensures
        ({
            let params = request_outcome(request, replies)->value;
            &&& params.tool_choice == Some(ToolChoiceMode::Required)
            &&& params.messages[i].role == Role::User
            &&& params.messages[i].content.len() > 0
            &&& params.messages[i].content.last() matches SamplingContentView::Text(text)
            &&& tool_hint(name).is_suffix_of(text)
        }),
{
    let hint = tool_hint(name);
    let sent = messages_with_hint(request.messages, hint);
    hint_goes_to_last_message_of_user(request.messages, hint, i);
    let blocks = blocks_of(sent[i].content);
    match request.messages[i].content {
        MessageContentView::Text(text) => {
            hint_keeps_text(text, hint);
        },
        MessageContentView::Blocks(given) => {
            hint_keeps_blocks(given, hint);
        },
    }
    conversion_keeps_conversation(request, replies, i, blocks.len() - 1);
}

/// A message with the result of a tool can say nothing else, so a request
/// that insists on one tool is never accepted where the last message of the
/// user holds a result: the sentence that asks for the tool has no place.
pub proof fn insisting_on_tool_after_result_is_refused(
    request: RequestView,
    replies: Seq<ImageReply>,
    i: int,
    j: int,
)
    requires
        required_tool(request.tool_choice) is Some,
        is_last_of_user(request.messages, i),
        0 <= j < blocks_of(request.messages[i].content).len(),
        blocks_of(request.messages[i].content)[j] is ToolResult,
    ensures
        !(request_outcome(request, replies) is Done),
{
    let hint = tool_hint(required_tool(request.tool_choice)->0);
    let sent = messages_with_hint(request.messages, hint);
    hint_goes_to_last_message_of_user(request.messages, hint, i);
    let given = blocks_of(request.messages[i].content);
    let blocks = blocks_of(sent[i].content);
    hint_keeps_blocks(given, hint);
    if request_outcome(request, replies) is Done {
        let messages = request_outcome(request, replies)->value.messages;
        conversion_keeps_conversation(request, replies, i, j);
        conversion_keeps_conversation(request, replies, i, blocks.len() - 1);
        assert(blocks[j] == given[j]);
        assert(tools_in_place(messages[i]));
        assert(messages[i].content[j] is ToolResult);
        assert(messages[i].content[blocks.len() - 1] is ToolResult);
    }
}

/// A block of a response as a block of a message in a later request.
pub open spec fn sent_back(block: OutputBlockView) -> InputBlockView {
    match block {
        OutputBlockView::Text(text) => InputBlockView::Text(text),
        OutputBlockView::ToolUse { id, name, input } => InputBlockView::ToolUse { id, name, input },
    }
}

/// The message of the assistant in a later request that a response becomes.
pub open spec fn response_sent_back(response: ResponseView) -> MessageView {
    MessageView {
        role: MessageRole::Assistant,
        content: MessageContentView::Blocks(
            Seq::new(response.content.len(), |i: int| sent_back(response.content[i])),
        ),
    }
}

/// Whether a block that is sent says what a block that came back said.
pub open spec fn repeats(content: SamplingContentView, sampled: SampledContentView) -> bool {
    match sampled {
        SampledContentView::Text(text) => content == SamplingContentView::Text(text),
        SampledContentView::ToolUse { id, name, input } => content == (
        SamplingContentView::ToolUse { id, name, input }),
        _ => false,
    }
}

/// What a client's model said comes back to it unchanged: where the response
/// to one request is sent back as a message of the assistant in a later one,
/// the client gets block by block what it had answered, calls of tools with
/// their ids, names and inputs.
pub proof fn response_comes_back_unchanged(
    id: Seq<char>,
    result: SamplingResultView,
    replies: Seq<ImageReply>,
)
    requires
        response_verdict(id, result) is Ok,
    ensures
        ({
            let outcome = message_outcome(
                response_sent_back(response_verdict(id, result)->Ok_0),
                replies,
            );
            &&& outcome is Done
            &&& outcome->used == 0
            &&& outcome->value.role == result.role
            &&& outcome->value.content.len() == result.content.len()
            &&& forall|i: int|
                0 <= i < result.content.len() ==> repeats(
                    #[trigger] outcome->value.content[i],
                    result.content[i],
                )
        }),
{
    let response = response_verdict(id, result)->Ok_0;
    let message = response_sent_back(response);
    response_keeps_blocks(result.content);
    let blocks = blocks_of(message.content);
    assert forall|j: int| 0 <= j < blocks.len() implies at_hand(#[trigger] blocks[j])
        && well_called(blocks[j]) by {
        assert(output_block_verdict(result.content[j]) == Ok::<_, BridgeErrorView>(
            response.content[j],
        ));
    }
    lemma_message_at_hand(message, replies);
    let content = message_outcome(message, replies)->value.content;
    assert forall|i: int| 0 <= i < result.content.len() implies repeats(
        #[trigger] content[i],
        result.content[i],
    ) by {
        assert(output_block_verdict(result.content[i]) == Ok::<_, BridgeErrorView>(
            response.content[i],
        ));
    }
}

/// An image is downloaded only from an address with the scheme `http` or
/// `https`, and only where the response is a success and the image has a media
/// type that says so. A media type that the request names is kept.
pub proof fn only_images_are_downloaded(
    url: Seq<char>,
    named: Option<Seq<char>>,
    replies: Seq<ImageReply>,
)
    requires
        image_outcome(ImageSourceView::Url { url, media_type: named }, replies) is Done,
    ensures
        parsed_scheme(url) matches Ok(scheme) && (scheme == "http"@ || scheme == "https"@),
        replies.len() > 0,
        replies[0].head matches Ok(head) && 200 <= head.status < 300,
        replies[0].body matches Some(Ok(bytes)) && image_outcome(
            ImageSourceView::Url { url, media_type: named },
            replies,
        )->value matches SamplingContentView::Image { data, mime_type } && {
            &&& data == base64_text(bytes)
            &&& "image/"@.is_prefix_of(mime_type)
            &&& named matches Some(media_type) ==> mime_type == media_type
        },
{
}

/// Whether a block is a call of a tool under an id.
pub open spec fn is_call(block: InputBlockView, id: Seq<char>) -> bool {
    block matches InputBlockView::ToolUse { id: called, .. } && called == id
}

/// Whether a block is the result of the call under an id.
pub open spec fn is_result(block: InputBlockView, id: Seq<char>) -> bool {
    block matches InputBlockView::ToolResult { tool_use_id, .. } && tool_use_id == id
}

/// Whether the results in a message of the user are those of the calls in the
/// message before it: each call has a result, each result a call, and no call
/// has two.
pub open spec fn results_match(calls: Seq<InputBlockView>, results: Seq<InputBlockView>) -> bool {
    &&& forall|l: int| 0 <= l < results.len() ==> #[trigger] results[l] is ToolResult
    &&& forall|j: int, id: Seq<char>|
        0 <= j < calls.len() && #[trigger] is_call(calls[j], id) ==> exists|l: int|
            0 <= l < results.len() && #[trigger] is_result(results[l], id)
    &&& forall|l: int, id: Seq<char>|
        0 <= l < results.len() && #[trigger] is_result(results[l], id) ==> exists|j: int|
            0 <= j < calls.len() && #[trigger] is_call(calls[j], id)
    &&& forall|l: int, m: int, id: Seq<char>|
        0 <= l < m < results.len() ==> !(#[trigger] is_result(results[l], id)
            && #[trigger] is_result(results[m], id))
}

/// Calls and results that match keep matching where calls and then their
/// results are put at the end.
proof fn lemma_balanced_further(
    messages: Seq<SamplingMessageView>,
    calls: Seq<InputBlockView>,
    results: Seq<InputBlockView>,
)
    requires
        tools_balanced(messages),
        forall|j: int|
            0 <= j < calls.len() ==> at_hand(#[trigger] calls[j]) && !(calls[j] is ToolResult),
        results_match(calls, results),
    ensures
        tools_balanced(
            messages.push(
                passed_on_message(
                    MessageView {
                        role: MessageRole::Assistant,
                        content: MessageContentView::Blocks(calls),
                    },
                ),
            ).push(
                passed_on_message(
                    MessageView {
                        role: MessageRole::User,
                        content: MessageContentView::Blocks(results),
                    },
                ),
            ),
        ),
{
    let called = passed_on_message(
        MessageView { role: MessageRole::Assistant, content: MessageContentView::Blocks(calls) },
    );
    let answered = passed_on_message(
        MessageView { role: MessageRole::User, content: MessageContentView::Blocks(results) },
    );
    let all = messages.push(called).push(answered);
    let n = messages.len() as int;
    assert(forall|j: int|
        0 <= j < calls.len() ==> #[trigger] called.content[j] == passed_on_block(calls[j]));
    assert(forall|l: int|
        0 <= l < results.len() ==> #[trigger] answered.content[l] == passed_on_block(results[l]));
    assert forall|i: int| 0 <= i < all.len() implies tools_in_place(#[trigger] all[i]) by {
        if i < n {
            assert(tools_in_place(messages[i]));
        }
    }
    assert forall|i: int, j: int, id: Seq<char>| i < n implies #[trigger] answers_tool(
        all,
        i,
        j,
        id,
    ) == answers_tool(messages, i, j, id) by {}
    assert forall|i: int, j: int, id: Seq<char>| i < n implies #[trigger] calls_tool(
        all,
        i,
        j,
        id,
    ) == calls_tool(messages, i, j, id) by {}
    assert forall|i: int, j: int, id: Seq<char>| #[trigger]
        answers_tool(all, i, j, id) implies result_is_owed(all, i, j, id) by {
        if i < n {
            assert(result_is_owed(messages, i, j, id));
            let (k, l) = choose|k: int, l: int|
                #![trigger calls_tool(messages, k, l, id)]
                calls_tool(messages, k, l, id) && precedes(k, l, i, j) && forall|a: int, b: int|
                    precedes(k, l, a, b) && precedes(a, b, i, j) ==> !#[trigger] answers_tool(
                        messages,
                        a,
                        b,
                        id,
                    );
            assert(calls_tool(all, k, l, id));
        } else {
            assert(i == n + 1);
            assert(is_result(results[j], id));
            let l = choose|l: int| 0 <= l < calls.len() && #[trigger] is_call(calls[l], id);
            assert(calls_tool(all, n, l, id));
            assert forall|a: int, b: int|
                precedes(n, l, a, b) && precedes(a, b, i, j) implies !#[trigger] answers_tool(
                all,
                a,
                b,
                id,
            ) by {
                if answers_tool(all, a, b, id) && a == n + 1 {
                    assert(is_result(results[b], id));
                }
            }
        }
    }
    assert forall|i: int, j: int, id: Seq<char>| #[trigger]
        calls_tool(all, i, j, id) implies call_is_answered(all, i, j, id) by {
        if i < n {
            assert(call_is_answered(messages, i, j, id));
            let (k, l) = choose|k: int, l: int| #[trigger]
                answers_tool(messages, k, l, id) && precedes(i, j, k, l);
            assert(answers_tool(all, k, l, id));
        } else {
            assert(i == n);
            assert(is_call(calls[j], id));
            let l = choose|l: int| 0 <= l < results.len() && #[trigger] is_result(results[l], id);
            assert(answers_tool(all, n + 1, l, id));
        }
    }
}

/// The loop of calling tools goes round: where the response to a request that
/// was accepted is sent back together with the results of its calls, the
/// longer request is accepted too, and it is passed on as the first one was,
/// with the response and the results at its end.
pub proof fn tool_loop_is_accepted(
    request: RequestView,
    replies: Seq<ImageReply>,
    id: Seq<char>,
    result: SamplingResultView,
    results: Seq<InputBlockView>,
)
    requires
        request_outcome(request, replies) is Done,
        required_tool(request.tool_choice) is None,
        response_verdict(id, result) is Ok,
        results_match(
            blocks_of(response_sent_back(response_verdict(id, result)->Ok_0).content),
            results,
        ),
    ensures
        ({
            let called = response_sent_back(response_verdict(id, result)->Ok_0);
            let answered = MessageView {
                role: MessageRole::User,
                content: MessageContentView::Blocks(results),
            };
            let outcome = request_outcome(
                RequestView {
                    messages: request.messages.push(called).push(answered),
                    ..request
                },
                replies,
            );
            &&& outcome is Done
            &&& outcome->value.messages == request_outcome(request, replies)->value.messages.push(
                passed_on_message(called),
            ).push(passed_on_message(answered))
        }),
{
    let response = response_verdict(id, result)->Ok_0;
    let called = response_sent_back(response);
    let answered = MessageView {
        role: MessageRole::User,
        content: MessageContentView::Blocks(results),
    };
    let calls = blocks_of(called.content);
    response_keeps_blocks(result.content);
    assert forall|j: int| 0 <= j < calls.len() implies at_hand(#[trigger] calls[j])
        && well_called(calls[j]) && !(calls[j] is ToolResult) by {
        assert(output_block_verdict(result.content[j]) == Ok::<_, BridgeErrorView>(
            response.content[j],
        ));
    }
    assert forall|l: int| 0 <= l < results.len() implies at_hand(#[trigger] results[l])
        && well_called(results[l]) by {
        assert(results[l] is ToolResult);
    }
    let convert = message_conversion();
    let first = request.messages;
    let second = first.push(called);
    let third = second.push(answered);
    assert(second.drop_last() =~= first);
    assert(third.drop_last() =~= second);
    let n = in_order(first, convert, replies)->used;
    lemma_message_at_hand(called, replies.skip(n as int));
    lemma_message_at_hand(answered, replies.skip(n as int));
    let before = request_outcome(request, replies)->value.messages;
    assert(in_order(first, convert, replies) == (Outcome::Done { value: before, used: n }));
    assert(in_order(second, convert, replies) == (Outcome::Done {
        value: before.push(passed_on_message(called)),
        used: n,
    }));
    assert(in_order(third, convert, replies) == (Outcome::Done {
        value: before.push(passed_on_message(called)).push(passed_on_message(answered)),
        used: n,
    }));
    lemma_balanced_further(before, calls, results);
}

/// Whether a message is passed on with its speaker and all it says: as many
/// blocks, and block `j` as it was.
pub open spec fn is_passed_on(message: MessageView, sent: SamplingMessageView, j: int) -> bool {
    let blocks = blocks_of(message.content);
    &&& sent.role == Role::User <==> message.role == MessageRole::User
    &&& sent.role == Role::Assistant <==> message.role == MessageRole::Assistant
    &&& sent.content.len() == blocks.len()
    &&& 0 <= j < blocks.len() ==> says_the_same(blocks[j], sent.content[j])
}

/// Unless a request insists on one tool, its conversation is passed on as it
/// is: as many messages, each with its speaker and all it says, and no word is
/// added.
pub proof fn conversation_is_passed_on_as_it_is(
    request: RequestView,
    replies: Seq<ImageReply>,
    i: int,
    j: int,
)
    requires
        request_outcome(request, replies) is Done,
        !(request.tool_choice matches Some(ToolChoiceView::Tool(_))),
    ensures
        ({
            let sent = request_outcome(request, replies)->value.messages;
            &&& sent.len() == request.messages.len()
            &&& 0 <= i < sent.len() ==> is_passed_on(request.messages[i], sent[i], j)
        }),
{
    conversion_keeps_conversation(request, replies, i, j);
}

/// Whether a text asks for a tool behind what was said: a space and the
/// sentence, or the sentence alone where nothing was said.
pub open spec fn asks_for_tool(said: Seq<char>, name: Seq<char>, text: Seq<char>) -> bool {
    let sentence = "(Please call the "@ + name + " tool.)"@;
    text == if said.len() == 0 {
        sentence
    } else {
        said + " "@ + sentence
    }
}

/// Where a request insists on one tool, all messages are passed on as they are
/// but the last one of the user, which asks for the tool: behind its text, or
/// behind its last block if that is text, and otherwise in a block of its own
/// behind all others. What it said before stays.
pub proof fn insisting_on_tool_adds_the_sentence_alone(
    request: RequestView,
    replies: Seq<ImageReply>,
    name: Seq<char>,
    i: int,
    j: int,
)
    requires
        request_outcome(request, replies) is Done,
        request.tool_choice == Some(ToolChoiceView::Tool(name)),
    ensures
        ({
            let sent = request_outcome(request, replies)->value.messages;
            &&& sent.len() == request.messages.len()
            &&& 0 <= i < sent.len() ==> {
                let given = request.messages[i];
                let blocks = blocks_of(given.content);
                let n = blocks.len();
                if given.role == MessageRole::User && forall|k: int|
                    i < k < request.messages.len() ==> (#[trigger] request.messages[k]).role
                        == MessageRole::Assistant {
                    &&& sent[i].role == Role::User
                    &&& if n > 0 && blocks.last() is Text {
                        &&& sent[i].content.len() == n
                        &&& 0 <= j < n - 1 ==> says_the_same(blocks[j], sent[i].content[j])
                        &&& sent[i].content.last() matches SamplingContentView::Text(text)
                        &&& asks_for_tool(blocks.last()->Text_0, name, text)
                    } else {
                        &&& sent[i].content.len() == n + 1
                        &&& 0 <= j < n ==> says_the_same(blocks[j], sent[i].content[j])
                        &&& sent[i].content.last() matches SamplingContentView::Text(text)
                        &&& asks_for_tool(Seq::empty(), name, text)
                    }
                } else {
                    is_passed_on(given, sent[i], j)
                }
            }
        }),
{
    let hint = tool_hint(name);
    let prepared = messages_with_hint(request.messages, hint);
    lemma_hint_keeps_len(request.messages, hint);
    conversion_keeps_conversation(request, replies, i, j);
    if 0 <= i < request.messages.len() {
        hint_goes_to_last_message_of_user(request.messages, hint, i);
        let blocks = blocks_of(request.messages[i].content);
        let hinted = blocks_of(prepared[i].content);
        conversion_keeps_conversation(request, replies, i, hinted.len() - 1);
        assert(is_last_of_user(request.messages, i) <==> request.messages[i].role
            == MessageRole::User && forall|k: int|
            i < k < request.messages.len() ==> (#[trigger] request.messages[k]).role
                == MessageRole::Assistant);
        if is_last_of_user(request.messages, i) {
            match request.messages[i].content {
                MessageContentView::Text(text) => {
                    assert(blocks.last() == InputBlockView::Text(text));
                },
                MessageContentView::Blocks(given) => {
                    hint_keeps_blocks(given, hint);
                },
            }
        }
    }
}

/// How a request has tools called is passed on: freely, not at all, or in any
/// case. To insist on one is to have one called in any case.
pub proof fn tool_choice_is_passed_on(request: RequestView, replies: Seq<ImageReply>)
    requires
        request_outcome(request, replies) is Done,
    ensures
        ({
            let choice = request_outcome(request, replies)->value.tool_choice;
            &&& choice is None <==> request.tool_choice is None
            &&& choice == Some(ToolChoiceMode::Auto) <==> request.tool_choice == Some(
                ToolChoiceView::Auto,
            )
            &&& choice == Some(ToolChoiceMode::NoTools) <==> request.tool_choice == Some(
                ToolChoiceView::NoTools,
            )
            &&& choice == Some(ToolChoiceMode::Required) <==> request.tool_choice == Some(
                ToolChoiceView::Any,
            ) || request.tool_choice matches Some(ToolChoiceView::Tool(_))
        }),
{
}

/// The tools of a request are passed on as they are: as many, in order, each
/// with its name, its description and its schema.
pub proof fn tools_are_passed_on(request: RequestView, replies: Seq<ImageReply>, i: int)
    requires
        request_outcome(request, replies) is Done,
    ensures
        ({
            let sent = request_outcome(request, replies)->value.tools;
            &&& sent is None <==> request.tools is None
            &&& request.tools matches Some(tools) ==> {
                &&& sent->0.len() == tools.len()
                &&& 0 <= i < tools.len() ==> {
                    &&& sent->0[i].name == tools[i].name
                    &&& sent->0[i].description == tools[i].description
                    &&& tools[i].input_schema == JsonView::Object(sent->0[i].input_schema)
                }
            }
        }),
{
    if let Some(tools) = request.tools {
        tools_keep_what_they_are(tools);
    }
}

/// The parts of a system prompt are passed on as one text with an empty line
/// between each two of them: all of them in order, and nothing else. Without a
/// system prompt there is none.
pub proof fn system_prompt_is_passed_on(request: RequestView, replies: Seq<ImageReply>, i: int)
    requires
        request_outcome(request, replies) is Done,
    ensures
        ({
            let prompt = request_outcome(request, replies)->value.system_prompt;
            &&& prompt is None <==> request.system is None
            &&& request.system matches Some(parts) ==> {
                &&& parts.len() == 0 ==> prompt->0.len() == 0
                &&& parts.len() > 0 ==> prompt->0.len() == length_of_all(parts) + 2 * (parts.len()
                    - 1)
                &&& 0 <= i < parts.len() ==> {
                    let start = length_of_all(parts.take(i)) + 2 * i;
                    &&& start + parts[i].len() <= prompt->0.len()
                    &&& prompt->0.subrange(start as int, start + parts[i].len()) == parts[i]
                    &&& i > 0 ==> prompt->0[start - 1] == '\n' && prompt->0[start - 2] == '\n'
                }
            }
        }),
{
    if let Some(parts) = request.system {
        reveal_strlit("\n\n");
        let line = "\n\n"@;
        assert(line.len() == 2);
        joined_part_stays_alone(Seq::empty(), line);
        if parts.len() > 0 {
            joined_parts_add_up(parts, line);
        } else {
            assert(parts =~= Seq::empty());
        }
        if 0 <= i < parts.len() {
            joined_parts_stand_in_order(parts, line, i);
            let prompt = joined(parts, line);
            let start = length_of_all(parts.take(i)) + 2 * i;
            if i > 0 {
                assert(prompt.subrange(start - 2, start as int)[0] == prompt[start - 2]);
                assert(prompt.subrange(start - 2, start as int)[1] == prompt[start - 1]);
            }
        }
    }
}

/// Whether an image is what a reply brought: its bytes in base64, with the
/// media type that the request names or, where it names none, the one that the
/// content type of the response names.
pub open spec fn is_image_of_reply(
    content: SamplingContentView,
    named: Option<Seq<char>>,
    reply: ImageReply,
) -> bool {
    &&& reply.head is Ok
    &&& reply.body matches Some(Ok(bytes))
    &&& content matches SamplingContentView::Image { data, mime_type }
    &&& data == base64_text(bytes)
    &&& match named {
        Some(media_type) => mime_type == media_type,
        None => reply.head->Ok_0.content_type matches Some(content_type) && is_media_type_of(
            content_type,
            mime_type,
        ),
    }
}

/// An image by address that is converted is what the first reply brought.
proof fn lemma_image_is_of_reply(
    url: Seq<char>,
    named: Option<Seq<char>>,
    replies: Seq<ImageReply>,
)
    requires
        image_outcome(ImageSourceView::Url { url, media_type: named }, replies) is Done,
    ensures
        replies.len() > 0,
        is_image_of_reply(
            image_outcome(ImageSourceView::Url { url, media_type: named }, replies)->value,
            named,
            replies[0],
        ),
{
    if let Some(content_type) = replies[0].head->Ok_0.content_type {
        content_type_names_media_type(content_type);
    }
}

/// An image by address is downloaded where its address has the scheme `http` or
/// `https`, the response is a success, its body was read, and the media type
/// says that it is an image: the one that the request names or, where it names
/// none, the one that the content type names.
pub proof fn image_with_all_it_needs_is_downloaded(
    url: Seq<char>,
    named: Option<Seq<char>>,
    media_type: Seq<char>,
    replies: Seq<ImageReply>,
)
    requires
        parsed_scheme(url) == Ok::<Seq<char>, Seq<char>>("http"@) || parsed_scheme(url) == Ok::<
            Seq<char>,
            Seq<char>,
        >("https"@),
        replies.len() > 0,
        replies[0].head matches Ok(head) && 200 <= head.status <= 299,
        replies[0].body matches Some(Ok(_)),
        match named {
            Some(given) => given == media_type,
            None => replies[0].head->Ok_0.content_type matches Some(content_type)
                && is_media_type_of(content_type, media_type),
        },
        "image/"@.is_prefix_of(media_type),
    ensures
        image_outcome(ImageSourceView::Url { url, media_type: named }, replies) == (Outcome::Done {
            value: SamplingContentView::Image {
                data: base64_text(replies[0].body->0->Ok_0),
                mime_type: media_type,
            },
            used: 1,
        }),
{
    reveal_strlit("image/");
    assert(media_type.len() > 0);
    if named is None {
        let content_type = replies[0].head->Ok_0.content_type->0;
        content_type_names_media_type(content_type);
        match content_media_type(Some(content_type)) {
            Some(other) => content_type_names_one_media_type(content_type, media_type, other),
            None => content_type_names_one_media_type(content_type, media_type, Seq::empty()),
        }
    }
}

/// Whether converting an image fails as an invalid request with this text.
pub open spec fn fails_with(outcome: Outcome<SamplingContentView>, text: Seq<char>) -> bool {
    outcome == Outcome::<SamplingContentView>::Fails(
        BridgeErrorView::InvalidAnthropicRequest(text),
    )
}

/// An image by address that is not downloaded is refused with what is wrong,
/// and with its address: that the address is no URL, that it has another scheme,
/// that there was no response, that the response is no success, that nothing
/// names a media type, that it is no image's, or that the body was not read.
pub proof fn refused_image_says_why(
    url: Seq<char>,
    named: Option<Seq<char>>,
    reply: ImageReply,
    rest: Seq<ImageReply>,
    media_type: Seq<char>,
    text: Seq<char>,
)
    ensures
        ({
            let outcome = image_outcome(
                ImageSourceView::Url { url, media_type: named },
                seq![reply] + rest,
            );
            let allowed = parsed_scheme(url) matches Ok(scheme) && (scheme == "http"@ || scheme
                == "https"@);
            let success = allowed && (reply.head matches Ok(head) && 200 <= head.status <= 299);
            let content_type = reply.head->Ok_0.content_type;
            &&& parsed_scheme(url) == Err::<Seq<char>, Seq<char>>(text) ==> fails_with(
                outcome,
                "invalid image URL '"@ + url + "': "@ + text,
            )
            &&& parsed_scheme(url) == Ok::<Seq<char>, Seq<char>>(text) && !allowed ==> fails_with(
                outcome,
                "unsupported image URL scheme '"@ + text + "' for '"@ + url + "'"@,
            )
            &&& allowed && reply.head == Err::<ResponseHeadView, Seq<char>>(text) ==> fails_with(
                outcome,
                "failed to download image URL '"@ + url + "': "@ + text,
            )
            &&& allowed && reply.head is Ok && !success ==> fails_with(
                outcome,
                "image URL '"@ + url + "' returned HTTP "@ + status_line(
                    reply.head->Ok_0.status,
                ),
            )
            &&& success && named is None && (content_type is None || is_media_type_of(
                content_type->0,
                Seq::empty(),
            )) ==> fails_with(
                outcome,
                "image URL '"@ + url
                    + "' did not provide a media type; set source.media_type explicitly"@,
            )
            &&& success && (named == Some(text) || (named is None && content_type is Some
                && text.len() > 0 && is_media_type_of(content_type->0, text)))
                && !"image/"@.is_prefix_of(text) ==> fails_with(
                outcome,
                "image URL '"@ + url + "' resolved to non-image media type '"@ + text + "'"@,
            )
            &&& success && (named == Some(media_type) || (named is None && content_type is Some
                && is_media_type_of(content_type->0, media_type)))
                && "image/"@.is_prefix_of(media_type) && reply.body == Some(Err::<Seq<u8>, Seq<char>>(text)) ==> fails_with(
                outcome,
                "failed to read image bytes from '"@ + url + "': "@ + text,
            )
        }),
{
    let replies = seq![reply] + rest;
    assert(replies[0] == reply);
    assert("invalid image URL '"@ + url + "': "@ + text =~= "invalid image URL '"@ + url + ("': "@
        + text));
    assert("unsupported image URL scheme '"@ + text + "' for '"@ + url + "'"@ =~= (
    "unsupported image URL scheme '"@ + text + "' for '"@) + url + "'"@);
    assert("failed to download image URL '"@ + url + "': "@ + text
        =~= "failed to download image URL '"@ + url + ("': "@ + text));
    let line = status_line(reply.head->Ok_0.status);
    assert("image URL '"@ + url + "' returned HTTP "@ + line =~= "image URL '"@ + url + (
    "' returned HTTP "@ + line));
    assert("image URL '"@ + url + "' resolved to non-image media type '"@ + text + "'"@
        =~= "image URL '"@ + url + ("' resolved to non-image media type '"@ + text + "'"@));
    assert("failed to read image bytes from '"@ + url + "': "@ + text
        =~= "failed to read image bytes from '"@ + url + ("': "@ + text));
    if let Some(content_type) = reply.head->Ok_0.content_type {
        content_type_names_media_type(content_type);
        let read = match content_media_type(Some(content_type)) {
            Some(found) => found,
            None => Seq::empty(),
        };
        if is_media_type_of(content_type, Seq::empty()) {
            content_type_names_one_media_type(content_type, Seq::empty(), read);
        }
        if is_media_type_of(content_type, text) {
            content_type_names_one_media_type(content_type, text, read);
        }
        if is_media_type_of(content_type, media_type) {
            content_type_names_one_media_type(content_type, media_type, read);
            reveal_strlit("image/");
        }
    }
}

/// An image by address whose body is not yet read is asked for at its own
/// address: first the response, and then the body of one that is accepted.
pub proof fn image_is_asked_for_at_its_address(
    url: Seq<char>,
    named: Option<Seq<char>>,
    replies: Seq<ImageReply>,
)
    ensures
        ({
            let outcome = image_outcome(
                ImageSourceView::Url { url, media_type: named },
                replies,
            );
            &&& outcome is Wants ==> outcome == Outcome::<SamplingContentView>::Wants(
                if replies.len() == 0 {
                    Query::Head(url)
                } else {
                    Query::Body(url)
                },
            )
            &&& outcome is Wants && replies.len() > 0 ==> replies[0].body is None
            &&& outcome is Wants ==> (parsed_scheme(url) matches Ok(scheme) && (scheme == "http"@
                || scheme == "https"@))
            &&& replies.len() == 0 && (parsed_scheme(url) matches Ok(scheme) && (scheme == "http"@
                || scheme == "https"@)) ==> outcome is Wants
        }),
{
}

/// Items that weigh the same one by one weigh the same together.
proof fn lemma_total_agrees<A>(a: Seq<A>, b: Seq<A>, weight: spec_fn(A) -> nat)
    requires
        a.len() == b.len(),
        forall|i: int| 0 <= i < a.len() ==> weight(#[trigger] a[i]) == weight(b[i]),
    ensures
        total(a, weight) == total(b, weight),
    decreases a.len(),
{
    if a.len() > 0 {
        assert(a.last() == a[a.len() - 1]);
        let shorter = a.drop_last();
        assert forall|i: int| 0 <= i < shorter.len() implies weight(#[trigger] shorter[i])
            == weight(b.drop_last()[i]) by {
            assert(shorter[i] == a[i]);
        }
        lemma_total_agrees(shorter, b.drop_last(), weight);
    }
}

/// The first messages of a conversation name as many images by address with a
/// hint as without it.
proof fn lemma_hint_adds_no_address_before(messages: Seq<MessageView>, hint: Seq<char>, n: int)
    requires
        0 <= n <= messages.len(),
    ensures
        addresses(messages_with_hint(messages, hint).take(n)) == addresses(messages.take(n)),
{
    let hinted = messages_with_hint(messages, hint);
    let weight = addresses_in_message();
    lemma_hint_keeps_len(messages, hint);
    let a = hinted.take(n);
    assert forall|i: int| 0 <= i < n implies weight(#[trigger] a[i]) == weight(
        messages.take(n)[i],
    ) by {
        hint_goes_to_last_message_of_user(messages, hint, i);
        match messages[i].content {
            MessageContentView::Text(text) => {
                reveal_with_fuel(total, 2);
                assert(blocks_of(messages[i].content).last() == InputBlockView::Text(text));
                assert(blocks_of(hinted[i].content).last() is Text);
            },
            MessageContentView::Blocks(blocks) => {
                lemma_hint_adds_no_address_to_blocks(blocks, hint);
            },
        }
    }
    lemma_total_agrees(a, messages.take(n), weight);
}

/// Each image that is named by address becomes what its own download brought:
/// the one after as many as there are addresses before it in the conversation.
pub proof fn image_is_from_its_own_download(
    request: RequestView,
    replies: Seq<ImageReply>,
    i: int,
    j: int,
)
    requires
        request_outcome(request, replies) is Done,
        0 <= i < request.messages.len(),
        0 <= j < blocks_of(request.messages[i].content).len(),
        blocks_of(request.messages[i].content)[j] matches InputBlockView::Image(
            ImageSourceView::Url { .. },
        ),
    ensures
        ({
            let blocks = blocks_of(request.messages[i].content);
            let k = addresses(request.messages.take(i)) + total(
                blocks.take(j),
                addresses_in_block(),
            );
            &&& k < replies.len()
            &&& is_image_of_reply(
                request_outcome(request, replies)->value.messages[i].content[j],
                blocks[j]->Image_0->Url_media_type,
                replies[k as int],
            )
        }),
{
    let sent = prepared_messages(request.messages, request.tool_choice);
    let given = blocks_of(request.messages[i].content);
    let blocks = blocks_of(sent[i].content);
    if let Some(name) = required_tool(request.tool_choice) {
        let hint = tool_hint(name);
        lemma_hint_keeps_len(request.messages, hint);
        hint_goes_to_last_message_of_user(request.messages, hint, i);
        lemma_hint_adds_no_address_before(request.messages, hint, i);
        if let MessageContentView::Blocks(all) = request.messages[i].content {
            hint_keeps_blocks(all, hint);
        }
    }
    assert(request.messages[i].content is Blocks);
    assert(sent[i].content is Blocks);
    assert(blocks[j] == given[j]);
    assert(blocks.take(j) =~= given.take(j));
    let rest = lemma_in_order_each(sent, message_conversion(), replies, i);
    let own = lemma_in_order_each(blocks, block_conversion(), rest, j);
    lemma_message_uses();
    assert(uses_exactly(block_conversion(), addresses_in_block()));
    lemma_in_order_uses(sent.take(i), message_conversion(), addresses_in_message(), replies);
    lemma_in_order_uses(blocks.take(j), block_conversion(), addresses_in_block(), rest);
    message_conversion_is_local();
    in_order_is_local(sent.take(i), message_conversion(), replies, replies);
    block_conversion_is_local();
    in_order_is_local(blocks.take(j), block_conversion(), rest, rest);
    let before = addresses(request.messages.take(i));
    let within = total(given.take(j), addresses_in_block());
    assert(rest == replies.skip(before as int));
    assert(own == rest.skip(within as int));
    if let InputBlockView::Image(ImageSourceView::Url { url, media_type }) = blocks[j] {
        lemma_image_is_of_reply(url, media_type, own);
        assert(own[0] == replies[(before + within) as int]);
    }
}

/// All that items name, in order.
pub open spec fn listed<A>(items: Seq<A>, names: spec_fn(A) -> Seq<Seq<char>>) -> Seq<Seq<char>>
    decreases items.len(),
{
    if items.len() == 0 {
        Seq::empty()
    } else {
        listed(items.drop_last(), names) + names(items.last())
    }
}

/// The address that a block names, if it names one.
pub open spec fn address_in_block() -> spec_fn(InputBlockView) -> Seq<Seq<char>> {
    |block: InputBlockView|
        match block {
            InputBlockView::Image(ImageSourceView::Url { url, .. }) => seq![url],
            _ => Seq::empty(),
        }
}

/// The addresses that a message names, in order.
pub open spec fn address_list_of_message() -> spec_fn(MessageView) -> Seq<Seq<char>> {
    |message: MessageView| listed(blocks_of(message.content), address_in_block())
}

/// The addresses that a conversation names, in order.
pub open spec fn address_list(messages: Seq<MessageView>) -> Seq<Seq<char>> {
    listed(messages, address_list_of_message())
}

/// Whether a conversion asks for what is listed, in order.
spec fn asks_in_order<A, T>(
    convert: spec_fn(A, Seq<ImageReply>) -> Outcome<T>,
    names: spec_fn(A) -> Seq<Seq<char>>,
) -> bool {
    forall|a: A, r: Seq<ImageReply>|
        match #[trigger] convert(a, r) {
            Outcome::Done { used, .. } => used == names(a).len() && used <= r.len(),
            Outcome::Wants(query) => asked_for(names(a), r, query),
            Outcome::Fails(_) => true,
        }
}

/// Whether this is what is asked for, given the replies so far: the response
/// for the address behind those that have replies, or the body of a reply that
/// has none yet.
pub open spec fn asked_for(list: Seq<Seq<char>>, replies: Seq<ImageReply>, query: Query) -> bool {
    match query {
        Query::Head(url) => replies.len() < list.len() && url == list[replies.len() as int],
        Query::Body(url) => exists|k: int|
            0 <= k < replies.len() && k < list.len() && (#[trigger] replies[k]).body is None && url
                == list[k],
    }
}

/// Converting in order asks for what the items list, in order.
proof fn lemma_in_order_asks<A, T>(
    items: Seq<A>,
    convert: spec_fn(A, Seq<ImageReply>) -> Outcome<T>,
    names: spec_fn(A) -> Seq<Seq<char>>,
    replies: Seq<ImageReply>,
)
    requires
        asks_in_order(convert, names),
    ensures
        match in_order(items, convert, replies) {
            Outcome::Done { used, .. } => used == listed(items, names).len() && used
                <= replies.len(),
            Outcome::Wants(query) => asked_for(listed(items, names), replies, query),
            Outcome::Fails(_) => true,
        },
    decreases items.len(),
{
    if items.len() > 0 {
        let first = items.drop_last();
        let before = listed(first, names);
        let all = listed(items, names);
        lemma_in_order_asks(first, convert, names, replies);
        match in_order(first, convert, replies) {
            Outcome::Done { used: n, .. } => {
                let rest = replies.skip(n as int);
                let last = convert(items.last(), rest);
                if let Outcome::Wants(query) = last {
                    assert(asked_for(names(items.last()), rest, query));
                    if let Query::Body(url) = query {
                        let k = choose|k: int|
                            0 <= k < rest.len() && k < names(items.last()).len() && (
                            #[trigger] rest[k]).body is None && url == names(items.last())[k];
                        assert(replies[n + k] == rest[k]);
                        assert(all[n + k] == url);
                    }
                }
            },
            Outcome::Wants(Query::Body(url)) => {
                let k = choose|k: int|
                    0 <= k < replies.len() && k < before.len() && (
                    #[trigger] replies[k]).body is None && url == before[k];
                assert(all[k] == url);
            },
            _ => {},
        }
    }
}

/// A conversation names the same addresses with a hint as without it.
proof fn lemma_hint_lists_no_address(messages: Seq<MessageView>, hint: Seq<char>)
    ensures
        address_list(messages_with_hint(messages, hint)) == address_list(messages),
    decreases messages.len(),
{
    if messages.len() > 0 {
        let hinted = messages_with_hint(messages, hint);
        let first = messages.drop_last();
        if messages.last().role == MessageRole::User {
            assert(hinted.drop_last() =~= first);
            let plain = blocks_of(messages.last().content);
            let with_hint = blocks_of(hinted.last().content);
            match messages.last().content {
                MessageContentView::Text(text) => {
                    assert(plain.drop_last() =~= with_hint.drop_last());
                },
                MessageContentView::Blocks(blocks) => {
                    if blocks.len() > 0 && blocks.last() is Text {
                        assert(with_hint.drop_last() =~= plain.drop_last());
                    } else {
                        assert(with_hint.drop_last() =~= plain);
                    }
                },
            }
            assert(listed(with_hint, address_in_block()) =~= listed(plain, address_in_block()));
        } else {
            lemma_hint_lists_no_address(first, hint);
            assert(hinted.drop_last() =~= messages_with_hint(first, hint));
        }
    }
}

/// Downloads are asked for in the order in which the conversation names them:
/// the next one at the address behind those that have replies, and the body of
/// one at its own address.
pub proof fn downloads_are_asked_for_in_order(request: RequestView, replies: Seq<ImageReply>)
    ensures
        request_outcome(request, replies) matches Outcome::Wants(query) ==> asked_for(
            address_list(request.messages),
            replies,
            query,
        ),
{
    let blocks_convert = block_conversion();
    let blocks_names = address_in_block();
    assert forall|a: InputBlockView, r: Seq<ImageReply>|
        match #[trigger] blocks_convert(a, r) {
            Outcome::Done { used: n, .. } => n == blocks_names(a).len() && n <= r.len(),
            Outcome::Wants(query) => asked_for(blocks_names(a), r, query),
            Outcome::Fails(_) => true,
        } by {
        if let Outcome::Wants(Query::Body(_)) = blocks_convert(a, r) {
            assert(r[0].body is None);
        }
    }
    let convert = message_conversion();
    let names = address_list_of_message();
    assert forall|a: MessageView, r: Seq<ImageReply>|
        match #[trigger] convert(a, r) {
            Outcome::Done { used: n, .. } => n == names(a).len() && n <= r.len(),
            Outcome::Wants(query) => asked_for(names(a), r, query),
            Outcome::Fails(_) => true,
        } by {
        match a.content {
            MessageContentView::Text(text) => {
                reveal_with_fuel(listed, 2);
                assert(blocks_of(a.content).last() == InputBlockView::Text(text));
            },
            MessageContentView::Blocks(blocks) => {
                lemma_in_order_asks(blocks, blocks_convert, blocks_names, r);
            },
        }
    }
    if let Some(name) = required_tool(request.tool_choice) {
        lemma_hint_lists_no_address(request.messages, tool_hint(name));
    }
    lemma_in_order_asks(
        prepared_messages(request.messages, request.tool_choice),
        convert,
        names,
        replies,
    );
}

/// A text, a result and an image in base64 are never refused. A call is
/// refused exactly if its input is no object, with the JSON that it is.
pub proof fn refused_call_says_why(block: InputBlockView, replies: Seq<ImageReply>)
    ensures
        block is Text || block is ToolResult || is_plain(block) ==> block_outcome(
            block,
            replies,
        ) is Done,
        block matches InputBlockView::ToolUse { input, .. } ==> (if input is Object {
            block_outcome(block, replies) is Done
        } else {
            fails_with(
                block_outcome(block, replies),
                "expected JSON object but received "@ + json_text(input),
            )
        }),
{
}

/// The first block that is refused decides: where those before it are
/// converted, the message is refused for what is wrong with the block.
pub proof fn first_refused_block_decides(
    role: MessageRole,
    blocks: Seq<InputBlockView>,
    replies: Seq<ImageReply>,
    n: int,
)
    requires
        0 <= n < blocks.len(),
        in_order(blocks.take(n), block_conversion(), replies) is Done,
        block_outcome(
            blocks[n],
            replies.skip(in_order(blocks.take(n), block_conversion(), replies)->used as int),
        ) is Fails,
    ensures
        message_outcome(
            MessageView { role, content: MessageContentView::Blocks(blocks) },
            replies,
        ) == Outcome::<SamplingMessageView>::Fails(
            block_outcome(
                blocks[n],
                replies.skip(in_order(blocks.take(n), block_conversion(), replies)->used as int),
            )->Fails_0,
        ),
{
    let convert = block_conversion();
    assert(blocks.take(n + 1).drop_last() =~= blocks.take(n));
    assert(blocks.take(n + 1).last() == blocks[n]);
    let rest = replies.skip(in_order(blocks.take(n), convert, replies)->used as int);
    assert(convert(blocks[n], rest) == block_outcome(blocks[n], rest));
    in_order_stops(blocks, n + 1, convert, replies);
}

/// The first message that is refused decides: where those before it are
/// converted, the request is refused for what is wrong with the message.
pub proof fn first_refused_message_decides(
    request: RequestView,
    replies: Seq<ImageReply>,
    n: int,
)
    requires
        ({
            let sent = prepared_messages(request.messages, request.tool_choice);
            &&& 0 <= n < sent.len()
            &&& in_order(sent.take(n), message_conversion(), replies) is Done
            &&& message_outcome(
                sent[n],
                replies.skip(in_order(sent.take(n), message_conversion(), replies)->used as int),
            ) is Fails
        }),
    ensures
        ({
            let sent = prepared_messages(request.messages, request.tool_choice);
            request_outcome(request, replies) == Outcome::<SamplingParamsView>::Fails(
                message_outcome(
                    sent[n],
                    replies.skip(
                        in_order(sent.take(n), message_conversion(), replies)->used as int,
                    ),
                )->Fails_0,
            )
        }),
{
    let sent = prepared_messages(request.messages, request.tool_choice);
    let convert = message_conversion();
    assert(sent.take(n + 1).drop_last() =~= sent.take(n));
    assert(sent.take(n + 1).last() == sent[n]);
    let rest = replies.skip(in_order(sent.take(n), convert, replies)->used as int);
    assert(convert(sent[n], rest) == message_outcome(sent[n], rest));
    in_order_stops(sent, n + 1, convert, replies);
}

/// The first tool whose schema is no object decides among the tools.
proof fn lemma_first_refused_tool(tools: Seq<ToolDefinitionView>, n: int)
    requires
        0 <= n < tools.len(),
        !(tools[n].input_schema is Object),
        forall|i: int| 0 <= i < n ==> (#[trigger] tools[i]).input_schema is Object,
    ensures
        tools_verdict(tools) == Err::<Seq<SamplingToolView>, BridgeErrorView>(
            BridgeErrorView::InvalidAnthropicRequest(
                "expected JSON object but received "@ + json_text(tools[n].input_schema),
            ),
        ),
    decreases tools.len(),
{
    let first = tools.drop_last();
    if n < first.len() {
        assert forall|i: int| 0 <= i < n implies (#[trigger] first[i]).input_schema is Object by {
            assert(first[i] == tools[i]);
        }
        lemma_first_refused_tool(first, n);
    } else {
        assert forall|i: int| 0 <= i < first.len() implies (
        #[trigger] first[i]).input_schema is Object by {
            assert(first[i] == tools[i]);
        }
        tools_keep_what_they_are(first);
    }
}

/// Where the messages are converted, the first tool whose schema is no object
/// decides: the request is refused with the JSON that the schema is.
pub proof fn first_refused_tool_decides(
    request: RequestView,
    replies: Seq<ImageReply>,
    tools: Seq<ToolDefinitionView>,
    n: int,
)
    requires
        in_order(
            prepared_messages(request.messages, request.tool_choice),
            message_conversion(),
            replies,
        ) is Done,
        request.tools == Some(tools),
        0 <= n < tools.len(),
        !(tools[n].input_schema is Object),
        forall|i: int| 0 <= i < n ==> (#[trigger] tools[i]).input_schema is Object,
    ensures
        request_outcome(request, replies) == Outcome::<SamplingParamsView>::Fails(
            BridgeErrorView::InvalidAnthropicRequest(
                "expected JSON object but received "@ + json_text(tools[n].input_schema),
            ),
        ),
{
    lemma_first_refused_tool(tools, n);
}

/// Where the messages are converted and all schemas are objects, a conversation
/// whose calls and results of tools are out of place or do not match is refused
/// with the reason that MCP gives, and any other one is accepted.
pub proof fn unmatched_calls_are_refused(request: RequestView, replies: Seq<ImageReply>)
    requires
        in_order(
            prepared_messages(request.messages, request.tool_choice),
            message_conversion(),
            replies,
        ) is Done,
        request.tools matches Some(tools) ==> forall|i: int|
            0 <= i < tools.len() ==> (#[trigger] tools[i]).input_schema is Object,
    ensures
        ({
            let messages = in_order(
                prepared_messages(request.messages, request.tool_choice),
                message_conversion(),
                replies,
            )->value;
            if tools_balanced(messages) {
                request_outcome(request, replies) is Done
            } else {
                request_outcome(request, replies) == Outcome::<SamplingParamsView>::Fails(
                    BridgeErrorView::InvalidAnthropicRequest(
                        refusal(messages, id_list_text(unanswered_calls(messages))),
                    ),
                )
            }
        }),
{
    if let Some(tools) = request.tools {
        tools_keep_what_they_are(tools);
    }
}

} // verus!
