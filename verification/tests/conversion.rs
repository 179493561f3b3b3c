//! Requests of the Messages API become parameters of MCP sampling.
use sampling2api::anthropic::{
    ImageSource, InputContentBlock, MessageContentInput, MessageParam, MessageRole,
    MessagesRequest, OutputContentBlock, SystemPrompt, SystemTextBlock, ToolChoice, ToolDefinition,
    ToolResultContentBlock, ToolResultContentInput, ToolResultTextType,
};
use sampling2api::conversion::{
    judge_params, messages_request_to_sampling, tool_choice_to_mcp, tool_definition_to_mcp,
    ConversionStep,
};
use sampling2api::error::BridgeError;
use sampling2api::image::ResponseHead;
use sampling2api::json::{not_an_object, value_to_object};
use sampling2api::response::sampling_result_to_messages_response;
use sampling2api::sampling::{
    Role, SampledContent, SamplingContent, SamplingParams, SamplingResult, ToolChoiceMode,
};
use serde_json::Value;

fn json(text: &str) -> Value {
    serde_json::from_str(text).expect("valid JSON")
}

fn request(model: &str, max_tokens: u32, messages: Vec<MessageParam>) -> MessagesRequest {
    MessagesRequest {
        model: model.to_string(),
        max_tokens,
        messages,
        system: None,
        metadata: None,
        stop_sequences: None,
        temperature_bits: None,
        tools: None,
        tool_choice: None,
        stream: None,
    }
}

fn says(role: MessageRole, text: &str) -> MessageParam {
    MessageParam { role, content: MessageContentInput::String(text.to_string()) }
}

fn blocks(role: MessageRole, blocks: Vec<InputContentBlock>) -> MessageParam {
    MessageParam { role, content: MessageContentInput::Blocks(blocks) }
}

fn text(text: &str) -> InputContentBlock {
    InputContentBlock::Text { text: text.to_string() }
}

fn call(id: &str) -> InputContentBlock {
    InputContentBlock::ToolUse {
        id: id.to_string(),
        name: "lookup_weather".to_string(),
        input: json("{\"city\":\"Paris\"}"),
    }
}

fn result_of(id: &str) -> InputContentBlock {
    InputContentBlock::ToolResult {
        tool_use_id: id.to_string(),
        is_error: None,
        content: ToolResultContentInput::String("18C and sunny".to_string()),
    }
}

fn image_at(url: &str, media_type: Option<&str>) -> InputContentBlock {
    InputContentBlock::Image {
        source: ImageSource::Url {
            url: url.to_string(),
            media_type: media_type.map(str::to_owned),
        },
    }
}

fn finished(step: ConversionStep) -> Result<SamplingParams, BridgeError> {
    match step {
        ConversionStep::Finished(outcome) => outcome,
        ConversionStep::Download(pending) => panic!("wants to load {}", pending.url()),
        ConversionStep::ReadBody(pending) => panic!("wants to read {}", pending.url()),
    }
}

fn converted(request: MessagesRequest) -> SamplingParams {
    finished(messages_request_to_sampling(request)).expect("request should convert")
}

fn refused(request: MessagesRequest) -> String {
    match finished(messages_request_to_sampling(request)) {
        Err(BridgeError::InvalidAnthropicRequest(reason)) => reason,
        other => panic!("expected a refusal, got {other:?}"),
    }
}

/// Answers every download with one response and one body.
fn downloaded(
    mut step: ConversionStep,
    status: u16,
    content_type: Option<&str>,
    body: &[u8],
) -> (Result<SamplingParams, BridgeError>, Vec<String>) {
    let mut asked = Vec::new();
    loop {
        step = match step {
            ConversionStep::Finished(outcome) => return (outcome, asked),
            ConversionStep::Download(pending) => {
                asked.push(pending.url().to_string());
                let head = ResponseHead::new(status, content_type.map(str::to_owned));
                pending.resume(Ok(head.expect("a status of HTTP")))
            }
            ConversionStep::ReadBody(pending) => pending.resume(Ok(body.to_vec())),
        };
    }
}

#[test]
fn protocol_request_maps_to_sampling_with_tools_and_system() {
    let request = MessagesRequest {
        model: "sonnet-4-0".to_string(),
        max_tokens: 256,
        messages: vec![
            MessageParam {
                role: MessageRole::Assistant,
                content: MessageContentInput::Blocks(vec![InputContentBlock::ToolUse {
                    id: "call_123".to_string(),
                    name: "lookup_weather".to_string(),
                    input: json("{\"city\": \"Paris\"}"),
                }]),
            },
            MessageParam {
                role: MessageRole::User,
                content: MessageContentInput::Blocks(vec![InputContentBlock::ToolResult {
                    tool_use_id: "call_123".to_string(),
                    is_error: Some(false),
                    content: ToolResultContentInput::Blocks(vec![ToolResultContentBlock {
                        block_type: ToolResultTextType::Text,
                        text: "18C and sunny".to_string(),
                    }]),
                }]),
            },
        ],
        system: Some(SystemPrompt::Blocks(vec![
            SystemTextBlock {
                block_type: ToolResultTextType::Text,
                text: "You are a helpful assistant.".to_string(),
            },
            SystemTextBlock {
                block_type: ToolResultTextType::Text,
                text: "Prefer concise answers.".to_string(),
            },
        ])),
        metadata: Some(json("{\"trace_id\": \"abc\"}")),
        stop_sequences: Some(vec!["END".to_string()]),
        temperature_bits: Some(0.3f32.to_bits()),
        tools: Some(vec![ToolDefinition {
            name: "lookup_weather".to_string(),
            description: Some("Fetch weather".to_string()),
            input_schema: json(
                "{\"type\": \"object\", \"properties\": {\"city\": {\"type\": \"string\"}}, \
                 \"required\": [\"city\"]}",
            ),
        }]),
        tool_choice: Some(ToolChoice::Any),
        stream: Some(false),
    };

    let mut params =
        finished(messages_request_to_sampling(request)).expect("request should convert");

    assert_eq!(params.max_tokens, 256);
    assert_eq!(
        params.system_prompt.as_deref(),
        Some("You are a helpful assistant.\n\nPrefer concise answers.")
    );
    assert_eq!(params.temperature_bits.map(f32::from_bits), Some(0.3));
    assert_eq!(params.stop_sequences, Some(vec!["END".to_string()]));
    assert_eq!(params.metadata, Some(json("{\"trace_id\": \"abc\"}")));
    assert_eq!(params.model_hints.pop(), Some("sonnet-4-0".to_string()));
    assert!(params.model_hints.is_empty());
    assert_eq!(params.tool_choice, Some(ToolChoiceMode::Required));
    assert_eq!(params.messages.len(), 2);

    let tools = params.tools.expect("tools are passed on");
    assert_eq!(tools.len(), 1);
    assert_eq!(tools[0].name, "lookup_weather");
    assert_eq!(tools[0].description.as_deref(), Some("Fetch weather"));
    assert_eq!(tools[0].input_schema["required"], json("[\"city\"]"));
    match &params.messages[0].content[0] {
        SamplingContent::ToolUse { id, name, input } => {
            assert_eq!(id, "call_123");
            assert_eq!(name, "lookup_weather");
            assert_eq!(input["city"], "Paris");
        }
        other => panic!("expected a call, got {other:?}"),
    }
    match &params.messages[1].content[0] {
        SamplingContent::ToolResult { tool_use_id, content, is_error } => {
            assert_eq!(tool_use_id, "call_123");
            assert_eq!(content, &vec!["18C and sunny".to_string()]);
            assert_eq!(*is_error, Some(false));
        }
        other => panic!("expected a result, got {other:?}"),
    }
}

#[test]
fn protocol_request_supports_text_and_images() {
    let params = converted(request(
        "sonnet",
        32,
        vec![blocks(
            MessageRole::User,
            vec![
                text("Describe this image"),
                InputContentBlock::Image {
                    source: ImageSource::Base64 {
                        media_type: "image/png".to_string(),
                        data: "abc123".to_string(),
                    },
                },
            ],
        )],
    ));

    let contents = &params.messages[0].content;
    assert!(matches!(contents[0], SamplingContent::Text { .. }));
    assert!(matches!(contents[1], SamplingContent::Image { .. }));
}

#[test]
fn protocol_request_downloads_url_images_and_converts_to_base64() {
    let step = messages_request_to_sampling(request(
        "sonnet",
        32,
        vec![blocks(
            MessageRole::User,
            vec![image_at("http://127.0.0.1:8080/image.png", None)],
        )],
    ));

    let (outcome, asked) = downloaded(step, 200, Some("image/png"), b"png-bytes");
    let params = outcome.expect("request should convert");
    assert_eq!(asked, vec!["http://127.0.0.1:8080/image.png".to_string()]);
    match &params.messages[0].content[0] {
        SamplingContent::Image { data, mime_type } => {
            assert_eq!(mime_type, "image/png");
            assert_eq!(data, "cG5nLWJ5dGVz");
        }
        other => panic!("expected image content, got {other:?}"),
    }
}

#[test]
fn protocol_request_maps_specific_tool_choice_to_required_mode_with_hint() {
    let mut given = request("sonnet", 16, vec![says(MessageRole::User, "hello")]);
    given.tool_choice = Some(ToolChoice::Tool { name: "only_this".to_string() });

    let params = converted(given);

    assert_eq!(params.tool_choice, Some(ToolChoiceMode::Required));
    assert_eq!(params.messages.len(), 1);
    assert_eq!(params.messages[0].role, Role::User);
    let contents = &params.messages[0].content;
    assert_eq!(contents.len(), 1);
    match &contents[0] {
        SamplingContent::Text { text } => {
            assert_eq!(text, "hello (Please call the only_this tool.)");
        }
        other => panic!("expected text content, got {other:?}"),
    }
}

#[test]
fn protocol_request_appends_specific_tool_choice_hint_to_last_user_text_block() {
    let mut given = request(
        "sonnet",
        32,
        vec![
            says(MessageRole::User, "first"),
            says(MessageRole::Assistant, "working on it"),
            blocks(
                MessageRole::User,
                vec![
                    InputContentBlock::Image {
                        source: ImageSource::Base64 {
                            media_type: "image/png".to_string(),
                            data: "abc123".to_string(),
                        },
                    },
                    text("Describe this image"),
                ],
            ),
        ],
    );
    given.tools = Some(vec![ToolDefinition {
        name: "describe_image".to_string(),
        description: None,
        input_schema: json(
            "{\"type\": \"object\", \"properties\": {\"detail\": {\"type\": \"string\"}}}",
        ),
    }]);
    given.tool_choice = Some(ToolChoice::Tool { name: "describe_image".to_string() });

    let params = converted(given);

    let contents = &params.messages[2].content;
    assert_eq!(contents.len(), 2);
    match &contents[1] {
        SamplingContent::Text { text } => {
            assert_eq!(text, "Describe this image (Please call the describe_image tool.)");
        }
        other => panic!("expected trailing text content, got {other:?}"),
    }
    match &params.messages[0].content[0] {
        SamplingContent::Text { text } => assert_eq!(text, "first"),
        other => panic!("expected text content, got {other:?}"),
    }
}

#[test]
fn each_image_by_address_is_loaded_once_and_in_order() {
    let step = messages_request_to_sampling(request(
        "sonnet",
        32,
        vec![
            blocks(
                MessageRole::User,
                vec![
                    image_at("http://a.test/1", None),
                    text("and"),
                    image_at("https://a.test/2", None),
                ],
            ),
            says(MessageRole::Assistant, "Seen."),
            blocks(MessageRole::User, vec![image_at("http://a.test/3", Some("image/gif"))]),
        ],
    ));

    let (outcome, asked) = downloaded(step, 200, Some(" image/png ; q=1"), b"\xff\xfe\xfd\xfc");
    let params = outcome.expect("request should convert");
    assert_eq!(asked, vec!["http://a.test/1", "https://a.test/2", "http://a.test/3"]);
    assert_eq!(params.messages.len(), 3);
    assert_eq!(params.messages[0].content.len(), 3);
    let mut seen = Vec::new();
    for message in &params.messages {
        for content in &message.content {
            if let SamplingContent::Image { data, mime_type } = content {
                seen.push((data.as_str(), mime_type.as_str()));
            }
        }
    }
    assert_eq!(
        seen,
        vec![
            ("//79/A==", "image/png"),
            ("//79/A==", "image/png"),
            ("//79/A==", "image/gif"),
        ]
    );
}

#[test]
fn downloaded_image_equals_image_in_base64() {
    let by_address = messages_request_to_sampling(request(
        "sonnet",
        8,
        vec![blocks(MessageRole::User, vec![image_at("http://a.test/x", None), text("What?")])],
    ));
    let (outcome, _) = downloaded(by_address, 200, Some("image/webp"), b"abc");
    let inlined = converted(request(
        "sonnet",
        8,
        vec![blocks(
            MessageRole::User,
            vec![
                InputContentBlock::Image {
                    source: ImageSource::Base64 {
                        media_type: "image/webp".to_string(),
                        data: "YWJj".to_string(),
                    },
                },
                text("What?"),
            ],
        )],
    ));
    assert_eq!(format!("{:?}", outcome.expect("converts")), format!("{inlined:?}"));
}

#[test]
fn address_that_is_no_url_is_refused() {
    let reason = refused(request(
        "sonnet",
        8,
        vec![blocks(MessageRole::User, vec![image_at("not a url", None)])],
    ));
    assert_eq!(reason, "invalid image URL 'not a url': relative URL without a base");
}

#[test]
fn address_with_another_scheme_is_refused() {
    let reason = refused(request(
        "sonnet",
        8,
        vec![blocks(MessageRole::User, vec![image_at("FTP://a.test/x.png", None)])],
    ));
    assert_eq!(reason, "unsupported image URL scheme 'ftp' for 'FTP://a.test/x.png'");
}

fn after_download(
    status: u16,
    content_type: Option<&str>,
    named: Option<&str>,
) -> Result<SamplingParams, BridgeError> {
    let step = messages_request_to_sampling(request(
        "sonnet",
        8,
        vec![blocks(MessageRole::User, vec![image_at("http://a.test/x", named)])],
    ));
    downloaded(step, status, content_type, b"abc").0
}

fn reason_of(outcome: Result<SamplingParams, BridgeError>) -> String {
    match outcome {
        Err(BridgeError::InvalidAnthropicRequest(reason)) => reason,
        other => panic!("expected a refusal, got {other:?}"),
    }
}

#[test]
fn response_that_is_no_success_is_refused() {
    assert_eq!(
        reason_of(after_download(404, Some("image/png"), None)),
        "image URL 'http://a.test/x' returned HTTP 404 Not Found"
    );
    assert_eq!(
        reason_of(after_download(599, Some("image/png"), Some("image/png"))),
        "image URL 'http://a.test/x' returned HTTP 599 <unknown status code>"
    );
    assert_eq!(
        reason_of(after_download(302, Some("image/png"), None)),
        "image URL 'http://a.test/x' returned HTTP 302 Found"
    );
}

#[test]
fn response_without_media_type_is_refused() {
    let reason = "image URL 'http://a.test/x' did not provide a media type; \
                  set source.media_type explicitly";
    assert_eq!(reason_of(after_download(200, None, None)), reason);
    assert_eq!(reason_of(after_download(200, Some(" ; charset=utf-8"), None)), reason);
}

#[test]
fn response_that_is_no_image_is_refused() {
    assert_eq!(
        reason_of(after_download(200, Some("text/html; charset=utf-8"), None)),
        "image URL 'http://a.test/x' resolved to non-image media type 'text/html'"
    );
    assert_eq!(
        reason_of(after_download(200, Some("image/png"), Some("application/pdf"))),
        "image URL 'http://a.test/x' resolved to non-image media type 'application/pdf'"
    );
}

#[test]
fn named_media_type_wins() {
    let params = after_download(204, Some("text/html"), Some("image/avif")).expect("converts");
    match &params.messages[0].content[0] {
        SamplingContent::Image { mime_type, .. } => assert_eq!(mime_type, "image/avif"),
        other => panic!("expected image content, got {other:?}"),
    }
}

#[test]
fn download_that_fails_is_refused() {
    let given = || {
        messages_request_to_sampling(request(
            "sonnet",
            8,
            vec![blocks(MessageRole::User, vec![image_at("http://a.test/x", None)])],
        ))
    };
    match given() {
        ConversionStep::Download(pending) => {
            let outcome = finished(pending.resume(Err("connection refused".to_string())));
            assert_eq!(
                reason_of(outcome),
                "failed to download image URL 'http://a.test/x': connection refused"
            );
        }
        _ => panic!("expected a download"),
    }
    match given() {
        ConversionStep::Download(pending) => {
            let head = ResponseHead::new(200, Some("image/png".to_string())).expect("a status");
            match pending.resume(Ok(head)) {
                ConversionStep::ReadBody(pending) => {
                    assert_eq!(pending.url(), "http://a.test/x");
                    let outcome = finished(pending.resume(Err("connection reset".to_string())));
                    assert_eq!(
                        reason_of(outcome),
                        "failed to read image bytes from 'http://a.test/x': connection reset"
                    );
                }
                _ => panic!("expected to read the body"),
            }
        }
        _ => panic!("expected a download"),
    }
}

#[test]
fn input_of_call_must_be_an_object() {
    let reason = refused(request(
        "sonnet",
        8,
        vec![blocks(
            MessageRole::Assistant,
            vec![InputContentBlock::ToolUse {
                id: "a".to_string(),
                name: "b".to_string(),
                input: json("[1, {\"k\": null}]"),
            }],
        )],
    ));
    assert_eq!(reason, "expected JSON object but received [1,{\"k\":null}]");
}

#[test]
fn schema_of_tool_must_be_an_object() {
    let mut given = request("sonnet", 8, vec![says(MessageRole::User, "hello")]);
    given.tools = Some(vec![ToolDefinition {
        name: "t".to_string(),
        description: None,
        input_schema: json("true"),
    }]);
    assert_eq!(refused(given), "expected JSON object but received true");

    match tool_definition_to_mcp(ToolDefinition {
        name: "t".to_string(),
        description: None,
        input_schema: json("{\"type\": \"object\"}"),
    }) {
        Ok(tool) => {
            assert_eq!(tool.name, "t");
            assert_eq!(tool.description, None);
            assert_eq!(tool.input_schema["type"], "object");
        }
        Err(error) => panic!("expected a tool, got {error:?}"),
    }
}

#[test]
fn value_that_is_an_object_keeps_its_entries() {
    let object = value_to_object(json("{\"a\": 1, \"b\": [true]}")).expect("an object");
    assert_eq!(object.len(), 2);
    assert_eq!(object["a"], 1);
    assert_eq!(object["b"], json("[true]"));
    match value_to_object(json("\"text\"")) {
        Err(BridgeError::InvalidAnthropicRequest(reason)) => {
            assert_eq!(reason, "expected JSON object but received \"text\"");
        }
        other => panic!("expected a refusal, got {other:?}"),
    }
}

#[test]
fn text_of_value_is_part_of_the_error() {
    assert_eq!(
        not_an_object("null").message(),
        "invalid Anthropic request: expected JSON object but received null"
    );
}

#[test]
fn choices_of_tools_have_modes() {
    assert_eq!(tool_choice_to_mcp(ToolChoice::Auto), ToolChoiceMode::Auto);
    assert_eq!(tool_choice_to_mcp(ToolChoice::Any), ToolChoiceMode::Required);
    assert_eq!(tool_choice_to_mcp(ToolChoice::NoTools), ToolChoiceMode::NoTools);
    assert_eq!(
        tool_choice_to_mcp(ToolChoice::Tool { name: "t".to_string() }),
        ToolChoiceMode::Required
    );
}

#[test]
fn request_with_nothing_set_passes_nothing_on() {
    let params = converted(request("m", 0, Vec::new()));
    assert_eq!(params.messages.len(), 0);
    assert_eq!(params.model_hints, vec!["m".to_string()]);
    assert_eq!(params.system_prompt, None);
    assert_eq!(params.temperature_bits, None);
    assert_eq!(params.stop_sequences, None);
    assert_eq!(params.metadata, None);
    assert!(params.tools.is_none());
    assert_eq!(params.tool_choice, None);
}

#[test]
fn system_prompt_is_one_text() {
    let mut given = request("m", 1, Vec::new());
    given.system = Some(SystemPrompt::String("Be brief.".to_string()));
    assert_eq!(converted(given).system_prompt.as_deref(), Some("Be brief."));
    assert_eq!(SystemPrompt::Blocks(Vec::new()).flatten_text(), "");
}

#[test]
fn parameters_are_judged_by_the_verdict() {
    let params = || converted(request("m", 3, Vec::new()));
    assert_eq!(judge_params(params(), Ok(())).expect("accepted").max_tokens, 3);
    assert_eq!(reason_of(judge_params(params(), Err("why".to_string()))), "why");
}

#[test]
fn call_without_result_is_refused() {
    assert_eq!(
        refused(request("m", 1, vec![blocks(MessageRole::Assistant, vec![call("c1")])])),
        "ToolUse with id(s) [\"c1\"] not balanced with ToolResult"
    );
    assert_eq!(
        refused(request(
            "m",
            1,
            vec![
                blocks(MessageRole::Assistant, vec![call("c2"), call("c1"), call("c2")]),
                blocks(MessageRole::User, vec![result_of("c1")]),
                blocks(MessageRole::Assistant, vec![call("c1"), call("c\"3")]),
            ],
        )),
        "ToolUse with id(s) [\"c2\", \"c2\", \"c1\", \"c\\\"3\"] not balanced with ToolResult"
    );
}

#[test]
fn result_without_call_is_refused() {
    assert_eq!(
        refused(request("m", 1, vec![blocks(MessageRole::User, vec![result_of("c1")])])),
        "ToolResult with toolUseId 'c1' has no matching ToolUse"
    );
    assert_eq!(
        refused(request(
            "m",
            1,
            vec![
                blocks(MessageRole::Assistant, vec![call("c1")]),
                blocks(MessageRole::User, vec![result_of("c1"), result_of("c1")]),
            ],
        )),
        "ToolResult with toolUseId 'c1' has no matching ToolUse"
    );
}

#[test]
fn calls_and_results_in_the_wrong_place_are_refused() {
    assert_eq!(
        refused(request("m", 1, vec![blocks(MessageRole::User, vec![call("c1")])])),
        "ToolUse content is only allowed in assistant messages"
    );
    assert_eq!(
        refused(request("m", 1, vec![blocks(MessageRole::Assistant, vec![result_of("c1")])])),
        "ToolResult content is only allowed in user messages"
    );
    assert_eq!(
        refused(request(
            "m",
            1,
            vec![
                blocks(MessageRole::Assistant, vec![call("c1")]),
                blocks(MessageRole::User, vec![result_of("c1"), text("thanks")]),
            ],
        )),
        "SamplingMessage with tool result content MUST NOT contain other content types"
    );
}

#[test]
fn what_is_wrong_first_is_the_reason() {
    assert_eq!(
        refused(request(
            "m",
            1,
            vec![
                blocks(MessageRole::User, vec![result_of("c1"), result_of("c2")]),
                blocks(MessageRole::Assistant, vec![call("c3")]),
            ],
        )),
        "ToolResult with toolUseId 'c1' has no matching ToolUse"
    );
    assert_eq!(
        refused(request(
            "m",
            1,
            vec![
                blocks(MessageRole::User, vec![result_of("c1")]),
                blocks(MessageRole::User, vec![result_of("c2"), call("c3")]),
                blocks(MessageRole::Assistant, vec![result_of("c4")]),
            ],
        )),
        "ToolUse content is only allowed in assistant messages"
    );
}

#[test]
fn insisting_on_tool_after_its_result_is_refused() {
    let mut given = request(
        "m",
        1,
        vec![
            blocks(MessageRole::Assistant, vec![call("c1")]),
            blocks(MessageRole::User, vec![result_of("c1")]),
        ],
    );
    given.tool_choice = Some(ToolChoice::Tool { name: "lookup_weather".to_string() });
    assert_eq!(
        refused(given),
        "SamplingMessage with tool result content MUST NOT contain other content types"
    );
}

#[test]
fn plain_conversation_is_accepted_whoever_speaks() {
    let params = converted(request(
        "m",
        1,
        vec![
            says(MessageRole::Assistant, ""),
            says(MessageRole::Assistant, "b"),
            blocks(MessageRole::User, Vec::new()),
        ],
    ));
    assert_eq!(params.messages[0].role, Role::Assistant);
    assert_eq!(params.messages[1].role, Role::Assistant);
    assert_eq!(params.messages[2].role, Role::User);
    assert_eq!(params.messages[0].content.len(), 1);
    assert_eq!(params.messages[2].content.len(), 0);
}

#[test]
fn tool_loop_of_two_rounds_is_accepted() {
    let params = converted(request(
        "m",
        1,
        vec![
            says(MessageRole::User, "Weather?"),
            blocks(MessageRole::Assistant, vec![text("Let me look."), call("c1"), call("c2")]),
            blocks(MessageRole::User, vec![result_of("c2"), result_of("c1")]),
            blocks(MessageRole::Assistant, vec![call("c1")]),
            blocks(MessageRole::User, vec![result_of("c1")]),
        ],
    ));
    assert_eq!(params.messages.len(), 5);
    assert_eq!(params.messages[1].content.len(), 3);
}

#[test]
fn response_sent_back_reaches_the_client_unchanged() {
    let input = value_to_object(json("{\"city\": \"Paris\", \"days\": 2}")).expect("object");
    let response = sampling_result_to_messages_response(
        "msg_0".to_string(),
        SamplingResult {
            role: Role::Assistant,
            content: vec![
                SampledContent::Text { text: "Let me look.".to_string() },
                SampledContent::ToolUse {
                    id: "c1".to_string(),
                    name: "lookup_weather".to_string(),
                    input: input.clone(),
                },
            ],
            model: "m".to_string(),
            stop_reason: None,
        },
    )
    .expect("response converts");
    let sent_back = response
        .content
        .into_iter()
        .map(|block| match block {
            OutputContentBlock::Text { text } => InputContentBlock::Text { text },
            OutputContentBlock::ToolUse { id, name, input } => {
                InputContentBlock::ToolUse { id, name, input }
            }
        })
        .collect();
    let params = converted(request(
        "m",
        1,
        vec![
            says(MessageRole::User, "Weather?"),
            blocks(MessageRole::Assistant, sent_back),
            blocks(MessageRole::User, vec![result_of("c1")]),
        ],
    ));
    assert_eq!(params.messages[1].role, Role::Assistant);
    assert!(matches!(
        &params.messages[1].content[0],
        SamplingContent::Text { text } if text == "Let me look."
    ));
    match &params.messages[1].content[1] {
        SamplingContent::ToolUse { id, name, input: received } => {
            assert_eq!(id, "c1");
            assert_eq!(name, "lookup_weather");
            assert_eq!(received, &input);
        }
        other => panic!("expected a call, got {other:?}"),
    }
}
