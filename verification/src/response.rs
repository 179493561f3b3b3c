//! Results of MCP sampling become responses of the Messages API.
use vstd::prelude::*;

use crate::anthropic::{
    output_blocks, MessagesResponse, OutputBlockView, OutputContentBlock, ResponseView, Usage,
};
use crate::error::{BridgeError, BridgeErrorView};
use crate::json::{json_object, JsonView};
use crate::sampling::{
    result_verdict, sampled_contents, validate_result, Role, SampledContent, SampledContentView,
    SamplingResult, SamplingResultView,
};

verus! {

/// The name of a reason to stop, which the two protocols write differently.
/// A reason that is none of these keeps its name.
pub open spec fn stop_reason_name(reason: Seq<char>) -> Seq<char> {
    if reason == "endTurn"@ {
        "end_turn"@
    } else if reason == "stopSequence"@ {
        "stop_sequence"@
    } else if reason == "maxTokens"@ {
        "max_tokens"@
    } else if reason == "toolUse"@ {
        "tool_use"@
    } else if reason == "pauseTurn"@ {
        "pause_turn"@
    } else {
        reason
    }
}

/// A block of a response: only text and calls of tools have one.
pub open spec fn output_block_verdict(content: SampledContentView) -> Result<
    OutputBlockView,
    BridgeErrorView,
> {
    match content {
        SampledContentView::Text(text) => Ok(OutputBlockView::Text(text)),
        SampledContentView::ToolUse { id, name, input } => Ok(
            OutputBlockView::ToolUse { id, name, input: JsonView::Object(input) },
        ),
        _ => Err(
            BridgeErrorView::UnsupportedAnthropicFeature(
                "sampling response contained a content block that Anthropic Messages output does not support"@,
            ),
        ),
    }
}

/// The blocks of a response: the first that has none ends it.
pub open spec fn output_blocks_verdict(contents: Seq<SampledContentView>) -> Result<
    Seq<OutputBlockView>,
    BridgeErrorView,
>
    decreases contents.len(),
{
    if contents.len() == 0 {
        Ok(Seq::empty())
    } else {
        match output_blocks_verdict(contents.drop_last()) {
            Err(error) => Err(error),
            Ok(blocks) => match output_block_verdict(contents.last()) {
                Err(error) => Err(error),
                Ok(block) => Ok(blocks.push(block)),
            },
        }
    }
}

/// The response under an id that a result stands for.
pub open spec fn response_verdict(id: Seq<char>, result: SamplingResultView) -> Result<
    ResponseView,
    BridgeErrorView,
> {
    match result_verdict(result.role) {
        Err(reason) => Err(BridgeErrorView::InvalidAnthropicRequest(reason)),
        Ok(()) => match output_blocks_verdict(result.content) {
            Err(error) => Err(error),
            Ok(content) => Ok(
                ResponseView {
                    id,
                    object_type: "message"@,
                    role: "assistant"@,
                    content,
                    model: result.model,
                    stop_reason: match result.stop_reason {
                        Some(reason) => Some(stop_reason_name(reason)),
                        None => None,
                    },
                    stop_sequence: None,
                    usage: Usage { input_tokens: 0, output_tokens: 0 },
                },
            ),
        },
    }
}

/// The name of a reason to stop in the Messages API.
pub fn map_stop_reason(reason: &str) -> (name: String)
    ensures
        name@ == stop_reason_name(reason@),
{
    let reason = reason.to_owned();
    if reason == "endTurn".to_owned() {
        "end_turn".to_owned()
    } else if reason == "stopSequence".to_owned() {
        "stop_sequence".to_owned()
    } else if reason == "maxTokens".to_owned() {
        "max_tokens".to_owned()
    } else if reason == "toolUse".to_owned() {
        "tool_use".to_owned()
    } else if reason == "pauseTurn".to_owned() {
        "pause_turn".to_owned()
    } else {
        reason
    }
}

/// A block of a response: only text and calls of tools have one.
pub fn output_content_block_from_sampling(content: SampledContent) -> (block: Result<
    OutputContentBlock,
    BridgeError,
>)
    ensures
        match output_block_verdict(content@) {
            Ok(value) => block matches Ok(b) && b@ == value,
            Err(error) => block matches Err(e) && e@ == error,
        },
{
    match content {
        SampledContent::Text { text } => Ok(OutputContentBlock::Text { text }),
        SampledContent::ToolUse { id, name, input } => Ok(
            OutputContentBlock::ToolUse { id, name, input: json_object(input) },
        ),
        SampledContent::Image | SampledContent::Audio | SampledContent::ToolResult => Err(
            BridgeError::UnsupportedAnthropicFeature(
                "sampling response contained a content block that Anthropic Messages output does not support".to_owned(),
            ),
        ),
    }
}

/// A block that has no place in a response ends the conversion of blocks.
proof fn lemma_output_blocks_stop(contents: Seq<SampledContentView>, n: int)
    requires
        0 <= n <= contents.len(),
        output_blocks_verdict(contents.take(n)) is Err,
    ensures
        output_blocks_verdict(contents) == output_blocks_verdict(contents.take(n)),
    decreases contents.len(),
{
    if n == contents.len() {
        assert(contents.take(n) =~= contents);
    } else {
        assert(contents.drop_last().take(n) =~= contents.take(n));
        lemma_output_blocks_stop(contents.drop_last(), n);
    }
}

/// The response under an id that a result stands for.
pub fn sampling_result_to_messages_response(
    id: String,
    result: SamplingResult,
) -> (response: Result<MessagesResponse, BridgeError>)
    ensures
        match response_verdict(id@, result@) {
            Ok(value) => response matches Ok(r) && r@ == value,
            Err(error) => response matches Err(e) && e@ == error,
        },
{
    let SamplingResult { role, content: contents, model, stop_reason } = result;
    if let Err(reason) = validate_result(role) {
        return Err(BridgeError::InvalidAnthropicRequest(reason));
    }
    let ghost all = sampled_contents(contents@);
    let ghost given = contents@;
    let mut content: Vec<OutputContentBlock> = Vec::new();
    assert(output_blocks(content@) =~= Seq::empty());
    for sampled in it: contents
        invariant
            it.seq() == given,
            all == sampled_contents(given),
            all == result@.content,
            result_verdict(result@.role) is Ok,
            content@.len() == it.index(),
            output_blocks_verdict(all.take(it.index() as int)) == Ok::<_, BridgeErrorView>(
                output_blocks(content@),
            ),
    {
        let ghost n = content@.len() as int;
        assert(all.take(n + 1).drop_last() =~= all.take(n));
        assert(all.take(n + 1).last() == sampled@);
        match output_content_block_from_sampling(sampled) {
            Ok(block) => {
                let ghost earlier = output_blocks(content@);
                content.push(block);
                assert(output_blocks(content@) =~= earlier.push(block@));
            },
            Err(error) => {
                proof {
                    lemma_output_blocks_stop(all, n + 1);
                }
                return Err(error);
            },
        }
    }
    assert(all.take(all.len() as int) =~= all);
    let stop_reason = match stop_reason {
        Some(reason) => Some(map_stop_reason(reason.as_str())),
        None => None,
    };
    Ok(
        MessagesResponse {
            id,
            object_type: "message".to_owned(),
            role: "assistant".to_owned(),
            content,
            model,
            stop_reason,
            stop_sequence: None,
            usage: Usage::default(),
        },
    )
}

/// Blocks keep their number and their order: they have a response exactly if
/// each has a block in it, and that is the block.
pub proof fn response_keeps_blocks(contents: Seq<SampledContentView>)
    ensures
        output_blocks_verdict(contents) is Ok <==> forall|i: int|
            0 <= i < contents.len() ==> (output_block_verdict(#[trigger] contents[i]) is Ok),
        output_blocks_verdict(contents) matches Ok(blocks) ==> {
            &&& blocks.len() == contents.len()
            &&& forall|i: int|
                0 <= i < contents.len() ==> output_block_verdict(contents[i])
                    == Ok::<OutputBlockView, BridgeErrorView>(#[trigger] blocks[i])
        },
    decreases contents.len(),
{
    if contents.len() > 0 {
        let first = contents.drop_last();
        let last = contents.len() - 1;
        response_keeps_blocks(first);
        if output_blocks_verdict(contents) is Ok {
            assert forall|i: int| 0 <= i < contents.len() implies (output_block_verdict(
                #[trigger] contents[i],
            ) is Ok) by {
                if i < last {
                    assert(first[i] == contents[i]);
                    assert(output_block_verdict(first[i]) is Ok);
                }
            }
            let blocks = output_blocks_verdict(contents)->Ok_0;
            let earlier = output_blocks_verdict(first)->Ok_0;
            assert forall|i: int| 0 <= i < contents.len() implies output_block_verdict(contents[i])
                == Ok::<OutputBlockView, BridgeErrorView>(#[trigger] blocks[i]) by {
                if i < last {
                    assert(first[i] == contents[i]);
                    assert(blocks[i] == earlier[i]);
                }
            }
        } else if forall|i: int|
            0 <= i < contents.len() ==> (output_block_verdict(#[trigger] contents[i]) is Ok) {
            assert forall|i: int| 0 <= i < first.len() implies (output_block_verdict(
                #[trigger] first[i],
            ) is Ok) by {
                assert(first[i] == contents[i]);
            }
            assert(output_block_verdict(contents[last]) is Ok);
        }
    }
}

/// A result has a response exactly if the assistant speaks in it, in nothing
/// but texts and calls of tools.
pub proof fn result_has_response_iff(id: Seq<char>, result: SamplingResultView)
    ensures
        response_verdict(id, result) is Ok <==> {
            &&& result.role == Role::Assistant
            &&& forall|i: int|
                0 <= i < result.content.len() ==> (#[trigger] result.content[i] is Text
                    || result.content[i] is ToolUse)
        },
{
    response_keeps_blocks(result.content);
    if response_verdict(id, result) is Ok {
        assert forall|i: int| 0 <= i < result.content.len() implies (
        #[trigger] result.content[i] is Text || result.content[i] is ToolUse) by {
            assert(output_block_verdict(result.content[i]) is Ok);
        }
    }
}

/// The name of a reason to stop is none of those that have another name: to
/// name it once more changes nothing.
pub proof fn stop_reason_is_named_once(reason: Seq<char>)
    ensures
        stop_reason_name(stop_reason_name(reason)) == stop_reason_name(reason),
{
    reveal_strlit("endTurn");
    reveal_strlit("stopSequence");
    reveal_strlit("maxTokens");
    reveal_strlit("toolUse");
    reveal_strlit("pauseTurn");
    reveal_strlit("end_turn");
    reveal_strlit("stop_sequence");
    reveal_strlit("max_tokens");
    reveal_strlit("tool_use");
    reveal_strlit("pause_turn");
    assert("endTurn"@.len() == 7 && "toolUse"@.len() == 7 && "maxTokens"@.len() == 9
        && "pauseTurn"@.len() == 9 && "stopSequence"@.len() == 12);
    assert("end_turn"@.len() == 8 && "tool_use"@.len() == 8 && "max_tokens"@.len() == 10
        && "pause_turn"@.len() == 10 && "stop_sequence"@.len() == 13);
}

/// Five reasons to stop have another name in the Messages API, and every other
/// reason keeps its own.
pub proof fn stop_reasons_have_their_names(reason: Seq<char>)
    ensures
        stop_reason_name("endTurn"@) == "end_turn"@,
        stop_reason_name("stopSequence"@) == "stop_sequence"@,
        stop_reason_name("maxTokens"@) == "max_tokens"@,
        stop_reason_name("toolUse"@) == "tool_use"@,
        stop_reason_name("pauseTurn"@) == "pause_turn"@,
        !seq![
            "endTurn"@,
            "stopSequence"@,
            "maxTokens"@,
            "toolUse"@,
            "pauseTurn"@,
        ].contains(reason) ==> stop_reason_name(reason) == reason,
{
    reveal_strlit("endTurn");
    reveal_strlit("stopSequence");
    reveal_strlit("maxTokens");
    reveal_strlit("toolUse");
    reveal_strlit("pauseTurn");
    assert("endTurn"@.len() == 7 && "toolUse"@.len() == 7 && "maxTokens"@.len() == 9
        && "pauseTurn"@.len() == 9 && "stopSequence"@.len() == 12);
    assert("endTurn"@[0] == 'e' && "toolUse"@[0] == 't' && "maxTokens"@[0] == 'm'
        && "pauseTurn"@[0] == 'p');
    let renamed = seq!["endTurn"@, "stopSequence"@, "maxTokens"@, "toolUse"@, "pauseTurn"@];
    assert(renamed[0] == "endTurn"@ && renamed[1] == "stopSequence"@ && renamed[2] == "maxTokens"@
        && renamed[3] == "toolUse"@ && renamed[4] == "pauseTurn"@);
}

/// A response tells why the client's model stopped: it gives no reason exactly
/// if the result gives none, and the reason of the result under the name that
/// it has in the Messages API.
pub proof fn response_tells_why_it_stopped(
    id: Seq<char>,
    result: SamplingResultView,
    reason: Seq<char>,
)
    requires
        response_verdict(id, result) is Ok,
    ensures
        ({
            let told = response_verdict(id, result)->Ok_0.stop_reason;
            &&& told is None <==> result.stop_reason is None
            &&& result.stop_reason == Some("endTurn"@) ==> told == Some("end_turn"@)
            &&& result.stop_reason == Some("stopSequence"@) ==> told == Some("stop_sequence"@)
            &&& result.stop_reason == Some("maxTokens"@) ==> told == Some("max_tokens"@)
            &&& result.stop_reason == Some("toolUse"@) ==> told == Some("tool_use"@)
            &&& result.stop_reason == Some("pauseTurn"@) ==> told == Some("pause_turn"@)
            &&& result.stop_reason == Some(reason) && reason != "endTurn"@ && reason
                != "stopSequence"@ && reason != "maxTokens"@ && reason != "toolUse"@ && reason
                != "pauseTurn"@ ==> told == Some(reason)
        }),
{
    stop_reasons_have_their_names(reason);
    let renamed = seq!["endTurn"@, "stopSequence"@, "maxTokens"@, "toolUse"@, "pauseTurn"@];
    if renamed.contains(reason) {
        let i = choose|i: int| 0 <= i < renamed.len() && renamed[i] == reason;
        assert(i == 0 || i == 1 || i == 2 || i == 3 || i == 4);
    }
}

/// A response is a message of the assistant under the id that it was given,
/// from the model that answered. It holds block by block what the result holds:
/// the texts, and the calls with their ids, names and inputs. No stop sequence
/// is told and no token counted, for the client tells of neither.
pub proof fn response_tells_result(id: Seq<char>, result: SamplingResultView, i: int)
    requires
        response_verdict(id, result) is Ok,
    ensures
        ({
            let response = response_verdict(id, result)->Ok_0;
            &&& response.id == id
            &&& response.object_type == "message"@
            &&& response.role == "assistant"@
            &&& response.model == result.model
            &&& response.stop_sequence is None
            &&& response.usage.input_tokens == 0
            &&& response.usage.output_tokens == 0
            &&& response.content.len() == result.content.len()
            &&& 0 <= i < result.content.len() ==> match result.content[i] {
                SampledContentView::Text(said) => response.content[i] matches OutputBlockView::Text(
                    text,
                ) && text == said,
                SampledContentView::ToolUse { id: call, name: tool, input: given } => {
                    &&& response.content[i] matches OutputBlockView::ToolUse { id, name, input }
                    &&& id == call
                    &&& name == tool
                    &&& input matches JsonView::Object(entries)
                    &&& entries == given
                },
                _ => false,
            }
        }),
{
    response_keeps_blocks(result.content);
    if 0 <= i < result.content.len() {
        let blocks = response_verdict(id, result)->Ok_0.content;
        assert(output_block_verdict(result.content[i]) == Ok::<OutputBlockView, BridgeErrorView>(
            blocks[i],
        ));
    }
}

/// A block that has no place in a response ends the conversion of blocks as
/// unsupported.
proof fn lemma_unsupported_block(contents: Seq<SampledContentView>)
    ensures
        output_blocks_verdict(contents) matches Err(error) ==> error
            == BridgeErrorView::UnsupportedAnthropicFeature(
            "sampling response contained a content block that Anthropic Messages output does not support"@,
        ),
    decreases contents.len(),
{
    if contents.len() > 0 {
        lemma_unsupported_block(contents.drop_last());
    }
}

/// A result without a response is refused for what is wrong with it: one in
/// which the user speaks as an invalid request, and any other one as holding
/// what the Messages API does not support.
pub proof fn refused_result_says_why(id: Seq<char>, result: SamplingResultView)
    requires
        response_verdict(id, result) is Err,
    ensures
        response_verdict(id, result)->Err_0 == (if result.role == Role::User {
            BridgeErrorView::InvalidAnthropicRequest(
                "CreateMessageResult role must be 'assistant'"@,
            )
        } else {
            BridgeErrorView::UnsupportedAnthropicFeature(
                "sampling response contained a content block that Anthropic Messages output does not support"@,
            )
        }),
{
    lemma_unsupported_block(result.content);
}

} // verus!
