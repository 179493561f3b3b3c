//! Results of MCP sampling become responses of the Messages API.
use rmcp::model::CreateMessageResult;
use sampling2api::anthropic::{MessagesResponse, OutputContentBlock, Usage};
use sampling2api::error::BridgeError;
use sampling2api::json::value_to_object;
use sampling2api::response::{
    map_stop_reason, output_content_block_from_sampling, sampling_result_to_messages_response,
};
use sampling2api::sampling::{Role, SampledContent, SamplingResult};
use serde_json::Value;

fn json(text: &str) -> Value {
    serde_json::from_str(text).expect("valid JSON")
}

fn result(role: Role, content: Vec<SampledContent>) -> SamplingResult {
    SamplingResult { role, content, model: "client-model".to_string(), stop_reason: None }
}

fn response(result: SamplingResult) -> Result<MessagesResponse, BridgeError> {
    sampling_result_to_messages_response("msg_test".to_string(), result)
}

#[test]
fn protocol_response_maps_sampling_tool_use_and_stop_reason() {
    let result = SamplingResult {
        role: Role::Assistant,
        content: vec![
            SampledContent::Text { text: "Need to call a tool.".to_string() },
            SampledContent::ToolUse {
                id: "toolu_1".to_string(),
                name: "lookup_weather".to_string(),
                input: value_to_object(json("{\"city\": \"Paris\"}")).expect("object"),
            },
        ],
        model: "client-model".to_string(),
        stop_reason: Some(CreateMessageResult::STOP_REASON_TOOL_USE.to_string()),
    };

    let response = sampling_result_to_messages_response("msg_test".to_string(), result)
        .expect("response converts");

    assert_eq!(response.id, "msg_test");
    assert_eq!(response.object_type, "message");
    assert_eq!(response.role, "assistant");
    assert_eq!(response.model, "client-model");
    assert_eq!(response.stop_reason.as_deref(), Some("tool_use"));
    assert_eq!(response.content.len(), 2);
    assert!(matches!(response.content[0], OutputContentBlock::Text { .. }));
    assert!(matches!(response.content[1], OutputContentBlock::ToolUse { .. }));
    assert_eq!(response.stop_sequence, None);
    assert_eq!(response.usage, Usage { input_tokens: 0, output_tokens: 0 });
    match &response.content[1] {
        OutputContentBlock::ToolUse { id, name, input } => {
            assert_eq!(id, "toolu_1");
            assert_eq!(name, "lookup_weather");
            assert_eq!(input, &json("{\"city\": \"Paris\"}"));
        }
        other => panic!("expected a call, got {other:?}"),
    }
}

#[test]
fn reasons_to_stop_are_renamed() {
    assert_eq!(map_stop_reason(CreateMessageResult::STOP_REASON_END_TURN), "end_turn");
    assert_eq!(map_stop_reason(CreateMessageResult::STOP_REASON_END_SEQUENCE), "stop_sequence");
    assert_eq!(map_stop_reason(CreateMessageResult::STOP_REASON_END_MAX_TOKEN), "max_tokens");
    assert_eq!(map_stop_reason(CreateMessageResult::STOP_REASON_TOOL_USE), "tool_use");
    assert_eq!(map_stop_reason("pauseTurn"), "pause_turn");
    assert_eq!(map_stop_reason("refusal"), "refusal");
    assert_eq!(map_stop_reason(""), "");
    assert_eq!(map_stop_reason("end_turn"), "end_turn");
}

#[test]
fn result_of_the_user_is_refused() {
    match response(result(Role::User, Vec::new())) {
        Err(BridgeError::InvalidAnthropicRequest(reason)) => {
            assert_eq!(reason, "CreateMessageResult role must be 'assistant'");
        }
        other => panic!("expected a refusal, got {other:?}"),
    }
}

#[test]
fn result_with_other_content_is_unsupported() {
    let text = "sampling response contained a content block that Anthropic Messages output \
                does not support";
    let others = vec![SampledContent::Image, SampledContent::Audio, SampledContent::ToolResult];
    for other in others {
        let given = vec![SampledContent::Text { text: "a".to_string() }, other];
        match response(result(Role::Assistant, given)) {
            Err(error) => {
                assert!(matches!(&error, BridgeError::UnsupportedAnthropicFeature(t) if t == text));
                assert_eq!(error.message(), format!("unsupported Anthropic feature: {text}"));
            }
            other => panic!("expected a refusal, got {other:?}"),
        }
    }
    assert!(output_content_block_from_sampling(SampledContent::Audio).is_err());
}

#[test]
fn result_without_content_has_an_empty_response() {
    let response = response(result(Role::Assistant, Vec::new())).expect("response converts");
    assert!(response.content.is_empty());
    assert_eq!(response.stop_reason, None);
}

#[test]
fn errors_are_written_with_their_kind() {
    assert_eq!(
        BridgeError::InvalidAnthropicRequest("no".to_string()).message(),
        "invalid Anthropic request: no"
    );
    assert_eq!(
        BridgeError::UnsupportedAnthropicFeature("no".to_string()).message(),
        "unsupported Anthropic feature: no"
    );
}
