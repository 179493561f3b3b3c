//! A response as the events of a stream.
use sampling2api::anthropic::{MessagesResponse, OutputContentBlock, Usage};
use sampling2api::streaming::{input_json_delta, messages_response_to_sse_frames};
use serde_json::Value;

fn json(text: &str) -> Value {
    serde_json::from_str(text).expect("valid JSON")
}

#[test]
fn streaming_expands_text_and_tool_use_into_standard_events() {
    let response = MessagesResponse {
        id: "msg_1".to_string(),
        object_type: "message".to_string(),
        role: "assistant".to_string(),
        content: vec![
            OutputContentBlock::Text { text: "Hello".to_string() },
            OutputContentBlock::ToolUse {
                id: "toolu_1".to_string(),
                name: "lookup_weather".to_string(),
                input: json("{\"city\": \"Paris\"}"),
            },
        ],
        model: "mock-model".to_string(),
        stop_reason: Some("tool_use".to_string()),
        stop_sequence: None,
        usage: Usage::default(),
    };

    let frames = messages_response_to_sse_frames(&response);
    let events = frames.iter().map(|frame| frame.event).collect::<Vec<_>>();

    assert_eq!(
        events,
        vec![
            "message_start",
            "content_block_start",
            "content_block_delta",
            "content_block_stop",
            "content_block_start",
            "content_block_delta",
            "content_block_stop",
            "message_delta",
            "message_stop",
        ]
    );
    assert_eq!(frames[2].data["delta"]["type"], "text_delta");
    assert_eq!(frames[5].data["delta"]["type"], "input_json_delta");
    assert_eq!(frames[5].data["delta"]["partial_json"], "{\"city\":\"Paris\"}");
}

#[test]
fn events_hold_what_the_messages_api_sends() {
    let response = MessagesResponse {
        id: "msg_7".to_string(),
        object_type: "message".to_string(),
        role: "assistant".to_string(),
        content: vec![
            OutputContentBlock::ToolUse {
                id: "toolu_9".to_string(),
                name: "f".to_string(),
                input: json("{\"b\": 1, \"a\": [null]}"),
            },
            OutputContentBlock::Text { text: "Done \"so\"".to_string() },
        ],
        model: "m".to_string(),
        stop_reason: None,
        stop_sequence: Some("END".to_string()),
        usage: Usage { input_tokens: 3, output_tokens: 4_000_000_000 },
    };

    let data = messages_response_to_sse_frames(&response)
        .into_iter()
        .map(|frame| frame.data)
        .collect::<Vec<_>>();
    let expected = vec![
        json(
            "{\"type\":\"message_start\",\"message\":{\"id\":\"msg_7\",\"type\":\"message\",\
             \"role\":\"assistant\",\"content\":[],\"model\":\"m\",\"stop_reason\":null,\
             \"stop_sequence\":null,\"usage\":{\"input_tokens\":3,\"output_tokens\":4000000000}}}",
        ),
        json(
            "{\"type\":\"content_block_start\",\"index\":0,\"content_block\":\
             {\"type\":\"tool_use\",\"id\":\"toolu_9\",\"name\":\"f\",\"input\":{}}}",
        ),
        json(
            "{\"type\":\"content_block_delta\",\"index\":0,\"delta\":\
             {\"type\":\"input_json_delta\",\"partial_json\":\"{\\\"a\\\":[null],\\\"b\\\":1}\"}}",
        ),
        json("{\"type\":\"content_block_stop\",\"index\":0}"),
        json(
            "{\"type\":\"content_block_start\",\"index\":1,\"content_block\":\
             {\"type\":\"text\",\"text\":\"\"}}",
        ),
        json(
            "{\"type\":\"content_block_delta\",\"index\":1,\"delta\":\
             {\"type\":\"text_delta\",\"text\":\"Done \\\"so\\\"\"}}",
        ),
        json("{\"type\":\"content_block_stop\",\"index\":1}"),
        json(
            "{\"type\":\"message_delta\",\"delta\":{\"stop_reason\":null,\
             \"stop_sequence\":\"END\"},\"usage\":{\"output_tokens\":4000000000}}",
        ),
        json("{\"type\":\"message_stop\"}"),
    ];
    assert_eq!(data, expected);
}

#[test]
fn each_event_is_named_in_its_data() {
    let response = MessagesResponse {
        id: "msg_0".to_string(),
        object_type: "message".to_string(),
        role: "assistant".to_string(),
        content: Vec::new(),
        model: "m".to_string(),
        stop_reason: Some("end_turn".to_string()),
        stop_sequence: None,
        usage: Usage::default(),
    };
    let frames = messages_response_to_sse_frames(&response);
    assert_eq!(frames, messages_response_to_sse_frames(&response));
    assert_eq!(frames, frames.clone());
    assert_ne!(frames[0], frames[1]);
    assert_eq!(frames.len(), 3);
    for frame in frames {
        assert_eq!(frame.data["type"], frame.event);
    }
}

#[test]
fn input_of_tool_is_sent_as_text() {
    assert_eq!(
        input_json_delta("[1".to_string()),
        json("{\"type\":\"input_json_delta\",\"partial_json\":\"[1\"}")
    );
}
