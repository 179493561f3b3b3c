//! A response as the events of a stream, in the order in which the Messages
//! API sends them.
use serde_json::Value;
use vstd::prelude::*;

use crate::anthropic::{
    output_blocks, MessagesResponse, OutputBlockView, OutputContentBlock, ResponseView, Usage,
};
use crate::json::{
    entries_of, json_array, json_items, json_null, json_number, json_object, json_of, json_string,
    json_text, no_entries, object_insert, object_new, text_or_null, value_text, JsonObject,
    JsonView,
};
use crate::text::optional_text;

verus! {

/// One event of a stream: its name and its data.
#[derive(Debug, PartialEq)]
pub struct SseFrame {
    pub event: &'static str,
    pub data: Value,
}

/// What an [`SseFrame`] is.
pub struct SseFrameView {
    pub event: Seq<char>,
    pub data: JsonView,
}

impl View for SseFrame {
    type V = SseFrameView;

    open spec fn view(&self) -> SseFrameView {
        SseFrameView { event: self.event@, data: json_of(self.data) }
    }
}

impl Clone for SseFrame {
    fn clone(&self) -> (copy: SseFrame)
        ensures
            copy@ == self@,
    {
        SseFrame { event: self.event, data: self.data.clone() }
    }
}

/// What events are.
pub open spec fn sse_frames(frames: Seq<SseFrame>) -> Seq<SseFrameView> {
    Seq::new(frames.len(), |i: int| frames[i]@)
}

/// What an object holds of which only the type is known yet.
pub open spec fn typed(kind: Seq<char>) -> Map<Seq<char>, JsonView> {
    no_entries().insert("type"@, JsonView::Text(kind))
}

/// The tokens that a response cost, as JSON.
pub open spec fn usage_json(usage: Usage) -> JsonView {
    JsonView::Object(
        no_entries().insert(
            "input_tokens"@,
            JsonView::Integer(usage.input_tokens as int),
        ).insert("output_tokens"@, JsonView::Integer(usage.output_tokens as int)),
    )
}

/// The event that begins a response: all of it but the blocks and the end.
pub open spec fn message_start(response: ResponseView) -> SseFrameView {
    SseFrameView {
        event: "message_start"@,
        data: JsonView::Object(
            typed("message_start"@).insert(
                "message"@,
                JsonView::Object(
                    typed(response.object_type).insert(
                        "id"@,
                        JsonView::Text(response.id),
                    ).insert("role"@, JsonView::Text(response.role)).insert(
                        "content"@,
                        JsonView::Array(Seq::empty()),
                    ).insert("model"@, JsonView::Text(response.model)).insert(
                        "stop_reason"@,
                        JsonView::Null,
                    ).insert("stop_sequence"@, JsonView::Null).insert(
                        "usage"@,
                        usage_json(response.usage),
                    ),
                ),
            ),
        ),
    }
}

/// An event on the block at an index.
pub open spec fn block_event(event: Seq<char>, index: int) -> Map<Seq<char>, JsonView> {
    typed(event).insert("index"@, JsonView::Integer(index))
}

/// A block before any of it is sent.
pub open spec fn empty_block(block: OutputBlockView) -> JsonView {
    match block {
        OutputBlockView::Text(_) => JsonView::Object(
            typed("text"@).insert("text"@, JsonView::Text(Seq::empty())),
        ),
        OutputBlockView::ToolUse { id, name, .. } => JsonView::Object(
            typed("tool_use"@).insert("id"@, JsonView::Text(id)).insert(
                "name"@,
                JsonView::Text(name),
            ).insert("input"@, JsonView::Object(no_entries())),
        ),
    }
}

/// The input of a tool, as the text of its JSON.
pub open spec fn input_delta(partial_json: Seq<char>) -> JsonView {
    JsonView::Object(
        typed("input_json_delta"@).insert("partial_json"@, JsonView::Text(partial_json)),
    )
}

/// All of a block: its text, or the input of the tool as the text of its JSON.
pub open spec fn block_delta(block: OutputBlockView) -> JsonView {
    match block {
        OutputBlockView::Text(text) => JsonView::Object(
            typed("text_delta"@).insert("text"@, JsonView::Text(text)),
        ),
        OutputBlockView::ToolUse { input, .. } => input_delta(json_text(input)),
    }
}

/// The three events that send a block: it begins, all of it comes, it ends.
pub open spec fn block_frames(index: int, block: OutputBlockView) -> Seq<SseFrameView> {
    seq![
        SseFrameView {
            event: "content_block_start"@,
            data: JsonView::Object(
                block_event("content_block_start"@, index).insert(
                    "content_block"@,
                    empty_block(block),
                ),
            ),
        },
        SseFrameView {
            event: "content_block_delta"@,
            data: JsonView::Object(
                block_event("content_block_delta"@, index).insert("delta"@, block_delta(block)),
            ),
        },
        SseFrameView {
            event: "content_block_stop"@,
            data: JsonView::Object(block_event("content_block_stop"@, index)),
        },
    ]
}

/// The events that send blocks, one block after the other.
pub open spec fn blocks_frames(blocks: Seq<OutputBlockView>) -> Seq<SseFrameView>
    decreases blocks.len(),
{
    if blocks.len() == 0 {
        Seq::empty()
    } else {
        blocks_frames(blocks.drop_last()) + block_frames(blocks.len() - 1, blocks.last())
    }
}

/// The event that tells how a response ended.
pub open spec fn message_delta(response: ResponseView) -> SseFrameView {
    SseFrameView {
        event: "message_delta"@,
        data: JsonView::Object(
            typed("message_delta"@).insert(
                "delta"@,
                JsonView::Object(
                    no_entries().insert(
                        "stop_reason"@,
                        text_or_null(response.stop_reason),
                    ).insert("stop_sequence"@, text_or_null(response.stop_sequence)),
                ),
            ).insert(
                "usage"@,
                JsonView::Object(
                    no_entries().insert(
                        "output_tokens"@,
                        JsonView::Integer(response.usage.output_tokens as int),
                    ),
                ),
            ),
        ),
    }
}

/// The event that ends a response.
pub open spec fn message_stop() -> SseFrameView {
    SseFrameView { event: "message_stop"@, data: JsonView::Object(typed("message_stop"@)) }
}

/// The events of a response.
pub open spec fn response_frames(response: ResponseView) -> Seq<SseFrameView> {
    seq![message_start(response)] + blocks_frames(response.content) + seq![
        message_delta(response),
        message_stop(),
    ]
}

/// An object of which only the type is known yet.
fn typed_object(kind: &str) -> (object: JsonObject)
    ensures
        entries_of(object) == typed(kind@),
{
    let mut object = object_new();
    object_insert(&mut object, "type", json_string(kind.to_owned()));
    object
}

/// A text, or null for none.
fn string_or_null(text: &Option<String>) -> (value: Value)
    ensures
        json_of(value) == text_or_null(optional_text(*text)),
{
    match text {
        Some(text) => json_string(text.clone()),
        None => json_null(),
    }
}

/// The event that begins a response.
fn message_start_frame(response: &MessagesResponse) -> (frame: SseFrame)
    ensures
        frame@ == message_start(response@),
{
    let mut usage = object_new();
    object_insert(&mut usage, "input_tokens", json_number(response.usage.input_tokens as u64));
    object_insert(&mut usage, "output_tokens", json_number(response.usage.output_tokens as u64));
    let mut message = typed_object(response.object_type.as_str());
    object_insert(&mut message, "id", json_string(response.id.clone()));
    object_insert(&mut message, "role", json_string(response.role.clone()));
    let nothing: Vec<Value> = Vec::new();
    assert(json_items(nothing@) =~= Seq::empty());
    object_insert(&mut message, "content", json_array(nothing));
    object_insert(&mut message, "model", json_string(response.model.clone()));
    object_insert(&mut message, "stop_reason", json_null());
    object_insert(&mut message, "stop_sequence", json_null());
    object_insert(&mut message, "usage", json_object(usage));
    let mut data = typed_object("message_start");
    object_insert(&mut data, "message", json_object(message));
    SseFrame { event: "message_start", data: json_object(data) }
}

/// An event on the block at an index.
fn block_event_object(event: &str, index: usize) -> (object: JsonObject)
    ensures
        entries_of(object) == block_event(event@, index as int),
{
    let mut object = typed_object(event);
    object_insert(&mut object, "index", json_number(index as u64));
    object
}

/// The event that begins a block.
fn block_start_frame(index: usize, block: &OutputContentBlock) -> (frame: SseFrame)
    ensures
        frame@ == block_frames(index as int, block@)[0],
{
    let content_block = match block {
        OutputContentBlock::Text { .. } => {
            let mut object = typed_object("text");
            object_insert(&mut object, "text", json_string(String::new()));
            object
        },
        OutputContentBlock::ToolUse { id, name, .. } => {
            let mut object = typed_object("tool_use");
            object_insert(&mut object, "id", json_string(id.clone()));
            object_insert(&mut object, "name", json_string(name.clone()));
            object_insert(&mut object, "input", json_object(object_new()));
            object
        },
    };
    let mut data = block_event_object("content_block_start", index);
    object_insert(&mut data, "content_block", json_object(content_block));
    SseFrame { event: "content_block_start", data: json_object(data) }
}

/// The input of a tool, given the text of its JSON.
pub fn input_json_delta(partial_json: String) -> (delta: Value)
    ensures
        json_of(delta) == input_delta(partial_json@),
{
    let mut object = typed_object("input_json_delta");
    object_insert(&mut object, "partial_json", json_string(partial_json));
    json_object(object)
}

/// The event that sends all of a block.
fn block_delta_frame(index: usize, block: &OutputContentBlock) -> (frame: SseFrame)
    ensures
        frame@ == block_frames(index as int, block@)[1],
{
    let delta = match block {
        OutputContentBlock::Text { text } => {
            let mut object = typed_object("text_delta");
            object_insert(&mut object, "text", json_string(text.clone()));
            json_object(object)
        },
        OutputContentBlock::ToolUse { input, .. } => input_json_delta(value_text(input)),
    };
    let mut data = block_event_object("content_block_delta", index);
    object_insert(&mut data, "delta", delta);
    SseFrame { event: "content_block_delta", data: json_object(data) }
}

/// The event that tells how a response ended.
fn message_delta_frame(response: &MessagesResponse) -> (frame: SseFrame)
    ensures
        frame@ == message_delta(response@),
{
    let mut delta = object_new();
    object_insert(&mut delta, "stop_reason", string_or_null(&response.stop_reason));
    object_insert(&mut delta, "stop_sequence", string_or_null(&response.stop_sequence));
    let mut usage = object_new();
    object_insert(&mut usage, "output_tokens", json_number(response.usage.output_tokens as u64));
    let mut data = typed_object("message_delta");
    object_insert(&mut data, "delta", json_object(delta));
    object_insert(&mut data, "usage", json_object(usage));
    SseFrame { event: "message_delta", data: json_object(data) }
}

/// The events of a response.
pub fn messages_response_to_sse_frames(response: &MessagesResponse) -> (frames: Vec<SseFrame>)
    ensures
        sse_frames(frames@) == response_frames(response@),
{
    let mut frames: Vec<SseFrame> = Vec::new();
    frames.push(message_start_frame(response));
    let ghost start = seq![message_start(response@)];
    let ghost blocks = output_blocks(response.content@);
    assert(sse_frames(frames@) =~= start + blocks_frames(blocks.take(0)));
    for index in 0..response.content.len()
        invariant
            blocks == output_blocks(response.content@),
            start == seq![message_start(response@)],
            sse_frames(frames@) == start + blocks_frames(blocks.take(index as int)),
    {
        let ghost earlier = sse_frames(frames@);
        let block = &response.content[index];
        frames.push(block_start_frame(index, block));
        frames.push(block_delta_frame(index, block));
        frames.push(
            SseFrame {
                event: "content_block_stop",
                data: json_object(block_event_object("content_block_stop", index)),
            },
        );
        proof {
            let n = index as int;
            assert(blocks.take(n + 1).drop_last() =~= blocks.take(n));
            assert(blocks.take(n + 1).last() == block@);
            assert(sse_frames(frames@) =~= earlier + block_frames(n, block@));
            assert(sse_frames(frames@) =~= start + blocks_frames(blocks.take(n + 1)));
        }
    }
    assert(blocks.take(blocks.len() as int) =~= blocks);
    let ghost earlier = sse_frames(frames@);
    frames.push(message_delta_frame(response));
    frames.push(
        SseFrame { event: "message_stop", data: json_object(typed_object("message_stop")) },
    );
    assert(sse_frames(frames@) =~= earlier + seq![message_delta(response@), message_stop()]);
    frames
}

/// Each block has its three events, in the order of the blocks.
proof fn lemma_blocks_frames(blocks: Seq<OutputBlockView>, i: int)
    ensures
        blocks_frames(blocks).len() == 3 * blocks.len(),
        0 <= i < blocks.len() ==> {
            &&& blocks_frames(blocks)[3 * i] == block_frames(i, blocks[i])[0]
            &&& blocks_frames(blocks)[3 * i + 1] == block_frames(i, blocks[i])[1]
            &&& blocks_frames(blocks)[3 * i + 2] == block_frames(i, blocks[i])[2]
        },
    decreases blocks.len(),
{
    if blocks.len() > 0 {
        lemma_blocks_frames(blocks.drop_last(), i);
    }
}

/// A stream has one event that begins it, three for each block in order, and
/// two that end it.
pub proof fn stream_sends_blocks_in_order(response: ResponseView, i: int)
    ensures
        ({
            let frames = response_frames(response);
            let n = response.content.len() as int;
            &&& frames.len() == 3 * n + 3
            &&& frames[0] == message_start(response)
            &&& 0 <= i < n ==> {
                &&& frames[3 * i + 1] == block_frames(i, response.content[i])[0]
                &&& frames[3 * i + 2] == block_frames(i, response.content[i])[1]
                &&& frames[3 * i + 3] == block_frames(i, response.content[i])[2]
            }
            &&& frames[3 * n + 1] == message_delta(response)
            &&& frames[3 * n + 2] == message_stop()
        }),
{
    lemma_blocks_frames(response.content, i);
}

/// What stands in a JSON object under a key.
pub open spec fn field(json: JsonView, key: Seq<char>) -> Option<JsonView> {
    match json {
        JsonView::Object(entries) => if entries.contains_key(key) {
            Some(entries[key])
        } else {
            None
        },
        _ => None,
    }
}

/// The keys in the data of events differ.
proof fn lemma_keys_differ()
    ensures
        "type"@ != "message"@,
        "type"@ != "index"@,
        "type"@ != "content_block"@,
        "type"@ != "delta"@,
        "type"@ != "usage"@,
        "type"@ != "id"@,
        "type"@ != "role"@,
        "type"@ != "content"@,
        "type"@ != "model"@,
        "type"@ != "stop_reason"@,
        "type"@ != "stop_sequence"@,
        "id"@ != "role"@,
        "id"@ != "content"@,
        "id"@ != "model"@,
        "id"@ != "stop_reason"@,
        "id"@ != "stop_sequence"@,
        "id"@ != "usage"@,
        "role"@ != "content"@,
        "role"@ != "model"@,
        "role"@ != "stop_reason"@,
        "role"@ != "stop_sequence"@,
        "role"@ != "usage"@,
        "model"@ != "stop_reason"@,
        "model"@ != "stop_sequence"@,
        "model"@ != "usage"@,
        "delta"@ != "usage"@,
        "stop_reason"@ != "stop_sequence"@,
        "input_tokens"@ != "output_tokens"@,
        "type"@ != "text"@,
        "type"@ != "name"@,
        "type"@ != "input"@,
        "type"@ != "partial_json"@,
        "id"@ != "name"@,
        "id"@ != "input"@,
        "name"@ != "input"@,
        "text"@ != "tool_use"@,
{
    reveal_strlit("type");
    reveal_strlit("message");
    reveal_strlit("index");
    reveal_strlit("content_block");
    reveal_strlit("delta");
    reveal_strlit("usage");
    reveal_strlit("id");
    reveal_strlit("role");
    reveal_strlit("content");
    reveal_strlit("model");
    reveal_strlit("stop_reason");
    reveal_strlit("stop_sequence");
    reveal_strlit("input_tokens");
    reveal_strlit("output_tokens");
    reveal_strlit("text");
    reveal_strlit("name");
    reveal_strlit("input");
    reveal_strlit("partial_json");
    reveal_strlit("tool_use");
    assert("id"@.len() == 2 && "type"@.len() == 4 && "role"@.len() == 4 && "text"@.len() == 4
        && "name"@.len() == 4);
    assert("index"@.len() == 5 && "delta"@.len() == 5 && "usage"@.len() == 5 && "model"@.len() == 5
        && "input"@.len() == 5);
    assert("message"@.len() == 7 && "content"@.len() == 7 && "tool_use"@.len() == 8);
    assert("stop_reason"@.len() == 11 && "input_tokens"@.len() == 12 && "partial_json"@.len()
        == 12);
    assert("content_block"@.len() == 13 && "stop_sequence"@.len() == 13 && "output_tokens"@.len()
        == 13);
    assert("type"@[1] == 'y' && "role"@[1] == 'o' && "text"@[1] == 'e' && "name"@[1] == 'a');
    assert("delta"@[0] == 'd' && "usage"@[0] == 'u' && "model"@[0] == 'm');
}

/// The data of each event names the event as its type.
pub proof fn event_is_named_in_its_data(response: ResponseView, i: int)
    requires
        0 <= i < response_frames(response).len(),
    ensures
        field(response_frames(response)[i].data, "type"@) == Some(
            JsonView::Text(response_frames(response)[i].event),
        ),
{
    let n = response.content.len() as int;
    stream_sends_blocks_in_order(response, (i - 1) / 3);
    lemma_keys_differ();
    let k = (i - 1) / 3;
    if 1 <= i <= 3 * n {
        assert(i == 3 * k + 1 || i == 3 * k + 2 || i == 3 * k + 3);
    }
}

/// Whether two blocks are the same to one who reads a stream: of the input of
/// a tool, the text of its JSON counts.
pub open spec fn same_block(a: OutputBlockView, b: OutputBlockView) -> bool {
    match (a, b) {
        (OutputBlockView::Text(s), OutputBlockView::Text(t)) => s == t,
        (
            OutputBlockView::ToolUse { id, name, input },
            OutputBlockView::ToolUse { id: other_id, name: other_name, input: other },
        ) => id == other_id && name == other_name && json_text(input) == json_text(other),
        _ => false,
    }
}

/// The events of two blocks at the same place are the same only if the blocks
/// are the same to one who reads them.
proof fn lemma_block_frames_tell(index: int, a: OutputBlockView, b: OutputBlockView)
    requires
        block_frames(index, a)[0] == block_frames(index, b)[0],
        block_frames(index, a)[1] == block_frames(index, b)[1],
    ensures
        same_block(a, b),
{
    lemma_keys_differ();
    let start_a = block_frames(index, a)[0].data;
    let start_b = block_frames(index, b)[0].data;
    assert(field(start_a, "content_block"@) == Some(empty_block(a)));
    assert(field(start_b, "content_block"@) == Some(empty_block(b)));
    let kind_a = field(empty_block(a), "type"@);
    let kind_b = field(empty_block(b), "type"@);
    assert(kind_a == Some(JsonView::Text(if a is Text { "text"@ } else { "tool_use"@ })));
    assert(kind_b == Some(JsonView::Text(if b is Text { "text"@ } else { "tool_use"@ })));
    assert(field(block_frames(index, a)[1].data, "delta"@) == Some(block_delta(a)));
    assert(field(block_frames(index, b)[1].data, "delta"@) == Some(block_delta(b)));
    match (a, b) {
        (OutputBlockView::Text(s), OutputBlockView::Text(t)) => {
            assert(field(block_delta(a), "text"@) == Some(JsonView::Text(s)));
            assert(field(block_delta(b), "text"@) == Some(JsonView::Text(t)));
        },
        (
            OutputBlockView::ToolUse { id, name, input },
            OutputBlockView::ToolUse { id: other_id, name: other_name, input: other },
        ) => {
            assert(field(empty_block(a), "id"@) == Some(JsonView::Text(id)));
            assert(field(empty_block(b), "id"@) == Some(JsonView::Text(other_id)));
            assert(field(empty_block(a), "name"@) == Some(JsonView::Text(name)));
            assert(field(empty_block(b), "name"@) == Some(JsonView::Text(other_name)));
            let delta = "partial_json"@;
            assert(field(block_delta(a), delta) == Some(JsonView::Text(json_text(input))));
            assert(field(block_delta(b), delta) == Some(JsonView::Text(json_text(other))));
        },
        _ => {},
    }
}

/// The event that begins a response tells all of it but the blocks and why it
/// ended.
proof fn lemma_message_start_tells(a: ResponseView, b: ResponseView)
    requires
        message_start(a) == message_start(b),
    ensures
        a.id == b.id,
        a.object_type == b.object_type,
        a.role == b.role,
        a.model == b.model,
        a.usage == b.usage,
{
    lemma_keys_differ();
    let m = field(message_start(a).data, "message"@)->0;
    let n = field(message_start(b).data, "message"@)->0;
    assert(field(m, "type"@) == Some(JsonView::Text(a.object_type)));
    assert(field(n, "type"@) == Some(JsonView::Text(b.object_type)));
    assert(field(m, "id"@) == Some(JsonView::Text(a.id)));
    assert(field(n, "id"@) == Some(JsonView::Text(b.id)));
    assert(field(m, "role"@) == Some(JsonView::Text(a.role)));
    assert(field(n, "role"@) == Some(JsonView::Text(b.role)));
    assert(field(m, "model"@) == Some(JsonView::Text(a.model)));
    assert(field(n, "model"@) == Some(JsonView::Text(b.model)));
    assert(field(m, "usage"@) == Some(usage_json(a.usage)));
    assert(field(n, "usage"@) == Some(usage_json(b.usage)));
    assert(field(usage_json(a.usage), "input_tokens"@) == Some(
        JsonView::Integer(a.usage.input_tokens as int),
    ));
    assert(field(usage_json(b.usage), "input_tokens"@) == Some(
        JsonView::Integer(b.usage.input_tokens as int),
    ));
    assert(field(usage_json(a.usage), "output_tokens"@) == Some(
        JsonView::Integer(a.usage.output_tokens as int),
    ));
    assert(field(usage_json(b.usage), "output_tokens"@) == Some(
        JsonView::Integer(b.usage.output_tokens as int),
    ));
}

/// The event that tells how a response ended tells it.
proof fn lemma_message_delta_tells(a: ResponseView, b: ResponseView)
    requires
        message_delta(a) == message_delta(b),
    ensures
        a.stop_reason == b.stop_reason,
        a.stop_sequence == b.stop_sequence,
{
    lemma_keys_differ();
    let m = field(message_delta(a).data, "delta"@)->0;
    let n = field(message_delta(b).data, "delta"@)->0;
    assert(field(m, "stop_reason"@) == Some(text_or_null(a.stop_reason)));
    assert(field(n, "stop_reason"@) == Some(text_or_null(b.stop_reason)));
    assert(field(m, "stop_sequence"@) == Some(text_or_null(a.stop_sequence)));
    assert(field(n, "stop_sequence"@) == Some(text_or_null(b.stop_sequence)));
}

/// Nothing of a response is lost in its stream: two responses with the same
/// events are the same, of the input of a tool the text of its JSON.
pub proof fn stream_tells_whole_response(a: ResponseView, b: ResponseView)
    requires
        response_frames(a) == response_frames(b),
    ensures
        a.id == b.id,
        a.object_type == b.object_type,
        a.role == b.role,
        a.model == b.model,
        a.stop_reason == b.stop_reason,
        a.stop_sequence == b.stop_sequence,
        a.usage == b.usage,
        a.content.len() == b.content.len(),
        forall|i: int|
            0 <= i < a.content.len() ==> same_block(
                #[trigger] a.content[i],
                #[trigger] b.content[i],
            ),
{
    stream_sends_blocks_in_order(a, 0);
    stream_sends_blocks_in_order(b, 0);
    lemma_message_start_tells(a, b);
    lemma_message_delta_tells(a, b);
    assert forall|i: int| 0 <= i < a.content.len() implies same_block(
        #[trigger] a.content[i],
        #[trigger] b.content[i],
    ) by {
        stream_sends_blocks_in_order(a, i);
        stream_sends_blocks_in_order(b, i);
        lemma_block_frames_tell(i, a.content[i], b.content[i]);
    }
}

/// Whether a JSON value is an object with these keys and no others.
pub open spec fn has_keys(json: JsonView, keys: Set<Seq<char>>) -> bool {
    json matches JsonView::Object(entries) && entries.dom() == keys
}

/// Every event about a block carries the index of the block in the response.
pub proof fn block_events_carry_index(response: ResponseView, i: int)
    requires
        0 <= i < response.content.len(),
    ensures
        ({
            let frames = response_frames(response);
            &&& frames[3 * i + 1].event == "content_block_start"@
            &&& frames[3 * i + 2].event == "content_block_delta"@
            &&& frames[3 * i + 3].event == "content_block_stop"@
            &&& field(frames[3 * i + 1].data, "index"@) == Some(JsonView::Integer(i))
            &&& field(frames[3 * i + 2].data, "index"@) == Some(JsonView::Integer(i))
            &&& field(frames[3 * i + 3].data, "index"@) == Some(JsonView::Integer(i))
        }),
{
    stream_sends_blocks_in_order(response, i);
    lemma_keys_differ();
    lemma_more_keys_differ();
}

/// The index and what else an event about a block holds stand under different
/// keys.
proof fn lemma_more_keys_differ()
    ensures
        "index"@ != "content_block"@,
        "index"@ != "delta"@,
        "content"@ != "model"@,
        "content"@ != "stop_reason"@,
        "content"@ != "stop_sequence"@,
        "content"@ != "usage"@,
        "stop_reason"@ != "usage"@,
        "stop_sequence"@ != "usage"@,
{
    reveal_strlit("index");
    reveal_strlit("content_block");
    reveal_strlit("delta");
    reveal_strlit("content");
    reveal_strlit("model");
    reveal_strlit("stop_reason");
    reveal_strlit("stop_sequence");
    reveal_strlit("usage");
    assert("index"@.len() == 5 && "delta"@.len() == 5 && "usage"@.len() == 5 && "model"@.len()
        == 5);
    assert("content"@.len() == 7 && "stop_reason"@.len() == 11 && "content_block"@.len() == 13
        && "stop_sequence"@.len() == 13);
    assert("index"@[0] == 'i' && "delta"@[0] == 'd');
}

/// The events of a text begin an empty text at its index, bring all of the
/// text, and end it there.
pub proof fn text_is_streamed_whole(response: ResponseView, i: int, text: Seq<char>)
    requires
        0 <= i < response.content.len(),
        response.content[i] == OutputBlockView::Text(text),
    ensures
        ({
            let start = response_frames(response)[3 * i + 1].data;
            let delta = response_frames(response)[3 * i + 2].data;
            let stop = response_frames(response)[3 * i + 3].data;
            &&& has_keys(start, set!["type"@, "index"@, "content_block"@])
            &&& has_keys(delta, set!["type"@, "index"@, "delta"@])
            &&& has_keys(stop, set!["type"@, "index"@])
            &&& field(start, "content_block"@) matches Some(block)
            &&& has_keys(block, set!["type"@, "text"@])
            &&& field(block, "type"@) == Some(JsonView::Text("text"@))
            &&& field(block, "text"@) == Some(JsonView::Text(Seq::empty()))
            &&& field(delta, "delta"@) matches Some(all)
            &&& has_keys(all, set!["type"@, "text"@])
            &&& field(all, "type"@) == Some(JsonView::Text("text_delta"@))
            &&& field(all, "text"@) == Some(JsonView::Text(text))
        }),
{
    stream_sends_blocks_in_order(response, i);
    lemma_keys_differ();
    lemma_more_keys_differ();
    let frames = response_frames(response);
    let start = frames[3 * i + 1].data->Object_0;
    let delta = frames[3 * i + 2].data->Object_0;
    let stop = frames[3 * i + 3].data->Object_0;
    assert(start.dom() =~= set!["type"@, "index"@, "content_block"@]);
    assert(delta.dom() =~= set!["type"@, "index"@, "delta"@]);
    assert(stop.dom() =~= set!["type"@, "index"@]);
    assert(start["content_block"@]->Object_0.dom() =~= set!["type"@, "text"@]);
    assert(delta["delta"@]->Object_0.dom() =~= set!["type"@, "text"@]);
}

/// The events of a call of a tool begin it at its index with its id and name
/// and an empty input, bring the JSON of all of its input as text, and end it
/// there.
pub proof fn call_is_streamed_whole(
    response: ResponseView,
    i: int,
    id: Seq<char>,
    name: Seq<char>,
    input: JsonView,
)
    requires
        0 <= i < response.content.len(),
        response.content[i] == (OutputBlockView::ToolUse { id, name, input }),
    ensures
        ({
            let start = response_frames(response)[3 * i + 1].data;
            let delta = response_frames(response)[3 * i + 2].data;
            let stop = response_frames(response)[3 * i + 3].data;
            &&& has_keys(start, set!["type"@, "index"@, "content_block"@])
            &&& has_keys(delta, set!["type"@, "index"@, "delta"@])
            &&& has_keys(stop, set!["type"@, "index"@])
            &&& field(start, "content_block"@) matches Some(block)
            &&& has_keys(block, set!["type"@, "id"@, "name"@, "input"@])
            &&& field(block, "type"@) == Some(JsonView::Text("tool_use"@))
            &&& field(block, "id"@) == Some(JsonView::Text(id))
            &&& field(block, "name"@) == Some(JsonView::Text(name))
            &&& field(block, "input"@) matches Some(nothing)
            &&& has_keys(nothing, Set::empty())
            &&& field(delta, "delta"@) matches Some(all)
            &&& has_keys(all, set!["type"@, "partial_json"@])
            &&& field(all, "type"@) == Some(JsonView::Text("input_json_delta"@))
            &&& field(all, "partial_json"@) == Some(JsonView::Text(json_text(input)))
        }),
{
    stream_sends_blocks_in_order(response, i);
    lemma_keys_differ();
    lemma_more_keys_differ();
    let frames = response_frames(response);
    let start = frames[3 * i + 1].data->Object_0;
    let delta = frames[3 * i + 2].data->Object_0;
    let stop = frames[3 * i + 3].data->Object_0;
    assert(start.dom() =~= set!["type"@, "index"@, "content_block"@]);
    assert(delta.dom() =~= set!["type"@, "index"@, "delta"@]);
    assert(stop.dom() =~= set!["type"@, "index"@]);
    let block = start["content_block"@]->Object_0;
    assert(block.dom() =~= set!["type"@, "id"@, "name"@, "input"@]);
    assert(block["input"@]->Object_0.dom() =~= Set::empty());
    assert(delta["delta"@]->Object_0.dom() =~= set!["type"@, "partial_json"@]);
}

/// A stream begins with the response as it is before anything is said: its id,
/// type, role, model and tokens, without content and without a reason to stop.
pub proof fn stream_begins_with_empty_response(response: ResponseView)
    ensures
        ({
            let frame = response_frames(response)[0];
            &&& frame.event == "message_start"@
            &&& has_keys(frame.data, set!["type"@, "message"@])
            &&& field(frame.data, "message"@) matches Some(message)
            &&& has_keys(
                message,
                set![
                    "type"@,
                    "id"@,
                    "role"@,
                    "content"@,
                    "model"@,
                    "stop_reason"@,
                    "stop_sequence"@,
                    "usage"@,
                ],
            )
            &&& field(message, "type"@) == Some(JsonView::Text(response.object_type))
            &&& field(message, "id"@) == Some(JsonView::Text(response.id))
            &&& field(message, "role"@) == Some(JsonView::Text(response.role))
            &&& field(message, "content"@) == Some(JsonView::Array(Seq::empty()))
            &&& field(message, "model"@) == Some(JsonView::Text(response.model))
            &&& field(message, "stop_reason"@) == Some(JsonView::Null)
            &&& field(message, "stop_sequence"@) == Some(JsonView::Null)
            &&& field(message, "usage"@) matches Some(usage)
            &&& has_keys(usage, set!["input_tokens"@, "output_tokens"@])
            &&& field(usage, "input_tokens"@) == Some(
                JsonView::Integer(response.usage.input_tokens as int),
            )
            &&& field(usage, "output_tokens"@) == Some(
                JsonView::Integer(response.usage.output_tokens as int),
            )
        }),
{
    stream_sends_blocks_in_order(response, 0);
    lemma_keys_differ();
    lemma_more_keys_differ();
    let data = response_frames(response)[0].data->Object_0;
    assert(data.dom() =~= set!["type"@, "message"@]);
    let message = data["message"@]->Object_0;
    assert(message.dom() =~= set![
        "type"@,
        "id"@,
        "role"@,
        "content"@,
        "model"@,
        "stop_reason"@,
        "stop_sequence"@,
        "usage"@,
    ]);
    assert(message["usage"@]->Object_0.dom() =~= set!["input_tokens"@, "output_tokens"@]);
}

/// A stream ends with why the response stopped and what it cost, and then with
/// an event that holds nothing else.
pub proof fn stream_ends_with_reason(response: ResponseView)
    ensures
        ({
            let n = response.content.len() as int;
            let frames = response_frames(response);
            let told = frames[3 * n + 1];
            let last = frames[3 * n + 2];
            &&& frames.len() == 3 * n + 3
            &&& last.event == "message_stop"@
            &&& has_keys(last.data, set!["type"@])
            &&& told.event == "message_delta"@
            &&& has_keys(told.data, set!["type"@, "delta"@, "usage"@])
            &&& field(told.data, "delta"@) matches Some(delta)
            &&& has_keys(delta, set!["stop_reason"@, "stop_sequence"@])
            &&& match response.stop_reason {
                Some(reason) => field(delta, "stop_reason"@) == Some(JsonView::Text(reason)),
                None => field(delta, "stop_reason"@) == Some(JsonView::Null),
            }
            &&& match response.stop_sequence {
                Some(stop) => field(delta, "stop_sequence"@) == Some(JsonView::Text(stop)),
                None => field(delta, "stop_sequence"@) == Some(JsonView::Null),
            }
            &&& field(told.data, "usage"@) matches Some(usage)
            &&& has_keys(usage, set!["output_tokens"@])
            &&& field(usage, "output_tokens"@) == Some(
                JsonView::Integer(response.usage.output_tokens as int),
            )
        }),
{
    stream_sends_blocks_in_order(response, 0);
    lemma_keys_differ();
    let n = response.content.len() as int;
    let told = response_frames(response)[3 * n + 1].data->Object_0;
    let last = response_frames(response)[3 * n + 2].data->Object_0;
    assert(last.dom() =~= set!["type"@]);
    assert(told.dom() =~= set!["type"@, "delta"@, "usage"@]);
    assert(told["delta"@]->Object_0.dom() =~= set!["stop_reason"@, "stop_sequence"@]);
    assert(told["usage"@]->Object_0.dom() =~= set!["output_tokens"@]);
}

/// The text of an input's JSON is brought as it is.
pub proof fn input_is_brought_as_its_text(partial_json: Seq<char>)
    ensures
        has_keys(input_delta(partial_json), set!["type"@, "partial_json"@]),
        field(input_delta(partial_json), "type"@) == Some(JsonView::Text("input_json_delta"@)),
        field(input_delta(partial_json), "partial_json"@) == Some(JsonView::Text(partial_json)),
{
    lemma_keys_differ();
    assert(input_delta(partial_json)->Object_0.dom() =~= set!["type"@, "partial_json"@]);
}

} // verus!
