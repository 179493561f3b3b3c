//! The hint that stands in for a choice of one particular tool, which MCP
//! sampling cannot express.
use vstd::prelude::*;

use crate::anthropic::{
    conversation, input_blocks, InputBlockView, InputContentBlock, MessageContentInput,
    MessageContentView, MessageParam, MessageRole, MessageView, ToolChoice, ToolChoiceView,
};

verus! {

/// The sentence that asks for a tool by its name.
pub open spec fn tool_hint(tool_name: Seq<char>) -> Seq<char> {
    "(Please call the "@ + tool_name + " tool.)"@
}

/// A text with a hint behind it, set off by a space if there is a text.
pub open spec fn text_with_hint(text: Seq<char>, hint: Seq<char>) -> Seq<char> {
    if text.len() == 0 {
        hint
    } else {
        text + " "@ + hint
    }
}

/// Blocks with a hint at their end: in the last block if it is text, and
/// otherwise in a block of its own.
pub open spec fn blocks_with_hint(blocks: Seq<InputBlockView>, hint: Seq<char>) -> Seq<
    InputBlockView,
> {
    if blocks.len() > 0 && blocks.last() is Text {
        blocks.drop_last().push(
            InputBlockView::Text(text_with_hint(blocks.last()->Text_0, hint)),
        )
    } else {
        blocks.push(InputBlockView::Text(hint))
    }
}

/// What a message says, with a hint at its end.
pub open spec fn content_with_hint(
    content: MessageContentView,
    hint: Seq<char>,
) -> MessageContentView {
    match content {
        MessageContentView::Text(text) => MessageContentView::Text(text_with_hint(text, hint)),
        MessageContentView::Blocks(blocks) => MessageContentView::Blocks(
            blocks_with_hint(blocks, hint),
        ),
    }
}

/// A conversation with a hint at the end of the last message of the user.
pub open spec fn messages_with_hint(messages: Seq<MessageView>, hint: Seq<char>) -> Seq<MessageView>
    decreases messages.len(),
{
    if messages.len() == 0 {
        messages
    } else if messages.last().role == MessageRole::User {
        messages.drop_last().push(
            MessageView {
                role: MessageRole::User,
                content: content_with_hint(messages.last().content, hint),
            },
        )
    } else {
        messages_with_hint(messages.drop_last(), hint).push(messages.last())
    }
}

/// Whether blocks gained a hint: in the last block if it was text, and
/// otherwise in a block of its own. The other blocks are what they were.
pub open spec fn blocks_gain_hint(
    before: Seq<InputContentBlock>,
    after: Seq<InputContentBlock>,
    hint: Seq<char>,
) -> bool {
    if before.len() > 0 && before.last() is Text {
        &&& after.len() == before.len()
        &&& after.drop_last() == before.drop_last()
        &&& after.last() matches InputContentBlock::Text { text }
        &&& text@ == text_with_hint(before.last()->Text_text@, hint)
    } else {
        &&& after.len() == before.len() + 1
        &&& after.drop_last() == before
        &&& after.last() matches InputContentBlock::Text { text }
        &&& text@ == hint
    }
}

/// Whether what a message says gained a hint: plain text behind it, and blocks
/// at their end.
pub open spec fn content_gains_hint(
    before: MessageContentInput,
    after: MessageContentInput,
    hint: Seq<char>,
) -> bool {
    match (before, after) {
        (MessageContentInput::String(old_text), MessageContentInput::String(new_text)) => {
            new_text@ == text_with_hint(old_text@, hint)
        },
        (MessageContentInput::Blocks(old_blocks), MessageContentInput::Blocks(new_blocks)) => {
            blocks_gain_hint(old_blocks@, new_blocks@, hint)
        },
        _ => false,
    }
}

/// The tool that a request insists on, if it insists on one.
pub open spec fn required_tool(tool_choice: Option<ToolChoiceView>) -> Option<Seq<char>> {
    match tool_choice {
        Some(ToolChoiceView::Tool(name)) => Some(name),
        _ => None,
    }
}

/// A conversation as it is sent on: with the hint, if one tool is insisted on.
pub open spec fn prepared_messages(
    messages: Seq<MessageView>,
    tool_choice: Option<ToolChoiceView>,
) -> Seq<MessageView> {
    match required_tool(tool_choice) {
        Some(name) => messages_with_hint(messages, tool_hint(name)),
        None => messages,
    }
}

/// The tool that a request insists on, if it insists on one.
pub fn required_tool_name(tool_choice: &Option<ToolChoice>) -> (name: Option<&str>)
    ensures
        match tool_choice {
            Some(choice) => match required_tool(Some(choice@)) {
                Some(required) => name matches Some(n) && n@ == required,
                None => name is None,
            },
            None => name is None,
        },
{
    match tool_choice {
        Some(ToolChoice::Tool { name }) => Some(name.as_str()),
        _ => None,
    }
}

/// Puts a hint behind a text.
pub fn append_hint_to_text(text: &mut String, hint: &str)
    ensures
        final(text)@ == text_with_hint(old(text)@, hint@),
{
    if !text.as_str().is_empty() {
        text.append(" ");
    }
    text.append(hint);
    assert(old(text)@.len() == 0 ==> text@ =~= hint@);
}

/// Puts a hint at the end of blocks.
pub fn append_hint_to_blocks(blocks: &mut Vec<InputContentBlock>, hint: String)
    ensures
        blocks_gain_hint(old(blocks)@, final(blocks)@, hint@),
        input_blocks(final(blocks)@) == blocks_with_hint(input_blocks(old(blocks)@), hint@),
{
    let ghost given = blocks@;
    let ghost before = input_blocks(blocks@);
    let n = blocks.len();
    if n > 0 {
        if let InputContentBlock::Text { text } = &mut blocks[n - 1] {
            append_hint_to_text(text, hint.as_str());
            assert(blocks@.drop_last() =~= given.drop_last());
            assert(input_blocks(blocks@) =~= blocks_with_hint(before, hint@));
            return;
        }
    }
    blocks.push(InputContentBlock::Text { text: hint });
    assert(blocks@.drop_last() =~= given);
    assert(input_blocks(blocks@) =~= blocks_with_hint(before, hint@));
}

/// Asks for a tool by its name at the end of the last message of the user. A
/// conversation without one stays as it is, and so do all other messages.
pub fn append_required_tool_hint(messages: &mut [MessageParam], tool_name: &str)
    ensures
        final(messages)@.len() == old(messages)@.len(),
        forall|i: int|
            0 <= i < old(messages)@.len() ==> {
                if is_last_of_user(conversation(old(messages)@), i) {
                    &&& (#[trigger] final(messages)@[i]).role == old(messages)@[i].role
                    &&& content_gains_hint(
                        old(messages)@[i].content,
                        final(messages)@[i].content,
                        tool_hint(tool_name@),
                    )
                } else {
                    final(messages)@[i] == old(messages)@[i]
                }
            },
        (forall|i: int|
            0 <= i < old(messages)@.len() ==> (#[trigger] old(messages)@[i]).role
                != MessageRole::User) ==> final(messages)@ == old(messages)@,
        conversation(final(messages)@) == messages_with_hint(
            conversation(old(messages)@),
            tool_hint(tool_name@),
        ),
{
    let ghost all = conversation(messages@);
    let ghost asked = tool_hint(tool_name@);
    let mut n = messages.len();
    assert(all.take(n as int) =~= all);
    assert(messages_with_hint(all, asked) =~= messages_with_hint(all.take(n as int), asked)
        + all.skip(n as int));
    while n > 0
        invariant
            messages@ == old(messages)@,
            n <= messages@.len(),
            all == conversation(messages@),
            asked == tool_hint(tool_name@),
            forall|j: int| n <= j < all.len() ==> (#[trigger] all[j]).role != MessageRole::User,
            messages_with_hint(all, asked) == messages_with_hint(all.take(n as int), asked)
                + all.skip(n as int),
        decreases n,
    {
        let ghost head = all.take(n as int);
        assert(head.last() == messages@[n - 1]@);
        assert(head.drop_last() =~= all.take(n - 1));
        if messages[n - 1].role == MessageRole::User {
            let mut hint = "(Please call the ".to_owned();
            hint.append(tool_name);
            hint.append(" tool.)");
            match &mut messages[n - 1].content {
                MessageContentInput::String(text) => append_hint_to_text(text, hint.as_str()),
                MessageContentInput::Blocks(blocks) => append_hint_to_blocks(blocks, hint),
            }
            assert(conversation(messages@) =~= messages_with_hint(head, asked) + all.skip(
                n as int,
            ));
            assert(all[n - 1] == old(messages)@[n - 1]@);
            assert(is_last_of_user(all, n - 1));
            assert forall|i: int|
                0 <= i < all.len() && i != n - 1 implies !#[trigger] is_last_of_user(all, i) by {
                assert(all[n - 1].role == MessageRole::User);
            }
            return;
        }
        assert(messages_with_hint(head, asked) + all.skip(n as int) =~= messages_with_hint(
            all.take(n - 1),
            asked,
        ) + all.skip(n - 1));
        n -= 1;
    }
    assert(messages_with_hint(all.take(0), asked) + all.skip(0) =~= all);
}

/// Whether a message is the last one of the user.
pub open spec fn is_last_of_user(messages: Seq<MessageView>, i: int) -> bool {
    &&& 0 <= i < messages.len()
    &&& messages[i].role == MessageRole::User
    &&& forall|j: int| i < j < messages.len() ==> (#[trigger] messages[j]).role != MessageRole::User
}

/// A hint goes to the last message of the user and to no other: there are as
/// many messages as before, each by the one who spoke, and the others say
/// what they said.
pub proof fn hint_goes_to_last_message_of_user(
    messages: Seq<MessageView>,
    hint: Seq<char>,
    i: int,
)
    requires
        0 <= i < messages.len(),
    ensures
        messages_with_hint(messages, hint).len() == messages.len(),
        messages_with_hint(messages, hint)[i] == (MessageView {
            role: messages[i].role,
            content: if is_last_of_user(messages, i) {
                content_with_hint(messages[i].content, hint)
            } else {
                messages[i].content
            },
        }),
    decreases messages.len(),
{
    reveal_with_fuel(messages_with_hint, 2);
    let first = messages.drop_last();
    let last = messages.len() - 1;
    if messages[last].role != MessageRole::User && first.len() > 0 {
        let k = if i < last { i } else { 0 };
        hint_goes_to_last_message_of_user(first, hint, k);
        if i < last {
            assert(first[i] == messages[i]);
            if is_last_of_user(first, i) {
                assert forall|j: int| i < j < messages.len() implies (#[trigger] messages[j]).role
                    != MessageRole::User by {
                    assert(j < last ==> first[j] == messages[j]);
                }
            } else if is_last_of_user(messages, i) {
                assert forall|j: int| i < j < first.len() implies (#[trigger] first[j]).role
                    != MessageRole::User by {
                    assert(first[j] == messages[j]);
                }
            }
        }
    }
}

/// Without a message of the user, a hint changes nothing.
pub proof fn hint_needs_message_of_user(messages: Seq<MessageView>, hint: Seq<char>)
    requires
        forall|i: int|
            0 <= i < messages.len() ==> (#[trigger] messages[i]).role != MessageRole::User,
    ensures
        messages_with_hint(messages, hint) == messages,
    decreases messages.len(),
{
    if messages.len() > 0 {
        hint_needs_message_of_user(messages.drop_last(), hint);
        assert(messages_with_hint(messages, hint) =~= messages);
    }
}

/// The sentence that asks for a tool holds its name, and the same words around
/// it for every tool.
pub proof fn tool_hint_holds_name(name: Seq<char>)
    ensures
        "(Please call the "@.is_prefix_of(tool_hint(name)),
        " tool.)"@.is_suffix_of(tool_hint(name)),
        tool_hint(name).len() == 17 + name.len() + 7,
        tool_hint(name).subrange(17, (17 + name.len()) as int) == name,
{
    reveal_strlit("(Please call the ");
    reveal_strlit(" tool.)");
    let hint = tool_hint(name);
    assert("(Please call the "@.len() == 17);
    assert(" tool.)"@.len() == 7);
    assert(hint.subrange(0, 17) =~= "(Please call the "@);
    assert(hint.subrange(17, (17 + name.len()) as int) =~= name);
    assert(hint.subrange(hint.len() - 7, hint.len() as int) =~= " tool.)"@);
}

/// A text keeps its beginning when a hint is put behind it, and the hint is
/// what it then ends with. Between the two stands one space, and where there
/// was no text stands nothing but the hint.
pub proof fn hint_keeps_text(text: Seq<char>, hint: Seq<char>)
    ensures
        text.is_prefix_of(text_with_hint(text, hint)),
        hint.is_suffix_of(text_with_hint(text, hint)),
        text.len() == 0 ==> text_with_hint(text, hint) == hint,
        text.len() > 0 ==> {
            &&& text_with_hint(text, hint).len() == text.len() + 1 + hint.len()
            &&& text_with_hint(text, hint)[text.len() as int] == ' '
        },
{
    reveal_strlit(" ");
    let hinted = text_with_hint(text, hint);
    assert(hinted.subrange(0, text.len() as int) =~= text);
    assert(hinted.subrange(hinted.len() - hint.len(), hinted.len() as int) =~= hint);
}

/// Blocks keep what they hold when a hint is put at their end: those before
/// the last one as they are, and the last one, unless it is a text that the
/// hint was put behind. At the end stands a text that ends with the hint, in a
/// block of its own where the last one was no text.
pub proof fn hint_keeps_blocks(blocks: Seq<InputBlockView>, hint: Seq<char>)
    ensures
        blocks_with_hint(blocks, hint).len() == (if blocks.len() > 0 && blocks.last() is Text {
            blocks.len()
        } else {
            blocks.len() + 1
        }),
        !(blocks.len() > 0 && blocks.last() is Text) ==> blocks_with_hint(blocks, hint).last()
            == InputBlockView::Text(hint),
        blocks_with_hint(blocks, hint).len() >= blocks.len(),
        forall|i: int|
            0 <= i < blocks.len() ==> {
                ||| #[trigger] blocks_with_hint(blocks, hint)[i] == blocks[i]
                ||| {
                    &&& i == blocks.len() - 1
                    &&& blocks[i] matches InputBlockView::Text(text)
                    &&& blocks_with_hint(blocks, hint)[i] == InputBlockView::Text(
                        text_with_hint(text, hint),
                    )
                }
            },
        blocks.len() > 0 && blocks.last() is Text ==> blocks_with_hint(blocks, hint).last()
            == InputBlockView::Text(text_with_hint(blocks.last()->Text_0, hint)),
        blocks_with_hint(blocks, hint).last() matches InputBlockView::Text(text)
            && hint.is_suffix_of(text),
{
    if blocks.len() > 0 && blocks.last() is Text {
        hint_keeps_text(blocks.last()->Text_0, hint);
    } else {
        assert(hint.subrange(0, hint.len() as int) =~= hint);
    }
}

} // verus!
