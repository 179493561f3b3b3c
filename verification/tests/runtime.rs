//! The bridge at work.
use sampling2api::anthropic::{
    MessageContentInput, MessageParam, MessageRole, MessagesRequest, OutputContentBlock,
};
use sampling2api::api::{
    ApiError, ServiceFailure, BAD_GATEWAY, BAD_REQUEST, SERVICE_UNAVAILABLE,
};
use sampling2api::conversion::ConversionStep;
use sampling2api::error::BridgeError;
use sampling2api::json::value_to_object;
use sampling2api::registry::{
    PeerRegistry, API_SESSION_HEADER, DEFAULT_STDIO_SESSION_KEY, MCP_SESSION_HEADER,
};
use sampling2api::runtime::{
    AppState, MessagesReply, RegistrationStrategy, SamplingBridgeServer, HEALTHY, INSTRUCTIONS,
};
use sampling2api::sampling::{Role, SampledContent, SamplingContent, SamplingParams, SamplingResult};

/// A client that repeats what it is asked, or calls a tool.
#[derive(Debug)]
struct MockSamplingClient {
    name: &'static str,
}

impl MockSamplingClient {
    fn create_message(&self, params: SamplingParams) -> SamplingResult {
        let prompt = match params.messages.first().and_then(|message| message.content.first()) {
            Some(SamplingContent::Text { text }) => text.clone(),
            _ => "missing prompt".to_string(),
        };
        if prompt == "tool" {
            SamplingResult {
                role: Role::Assistant,
                content: vec![SampledContent::ToolUse {
                    id: "toolu_1".to_string(),
                    name: "lookup_weather".to_string(),
                    input: value_to_object(
                        serde_json::from_str("{\"city\": \"Paris\"}").expect("valid JSON"),
                    )
                    .expect("object"),
                }],
                model: self.name.to_string(),
                stop_reason: Some("toolUse".to_string()),
            }
        } else {
            SamplingResult {
                role: Role::Assistant,
                content: vec![SampledContent::Text { text: format!("echo: {prompt}") }],
                model: self.name.to_string(),
                stop_reason: Some("endTurn".to_string()),
            }
        }
    }
}

fn request(text: &str, stream: Option<bool>) -> MessagesRequest {
    MessagesRequest {
        model: "sonnet-4-0".to_string(),
        max_tokens: 64,
        messages: vec![MessageParam {
            role: MessageRole::User,
            content: MessageContentInput::String(text.to_string()),
        }],
        system: None,
        metadata: None,
        stop_sequences: None,
        temperature_bits: None,
        tools: None,
        tool_choice: None,
        stream,
    }
}

/// Connects a client as a server would.
fn connect<R>(
    state: &mut AppState<MockSamplingClient>,
    server: &SamplingBridgeServer<R>,
    session_header: Option<&str>,
    name: &'static str,
) {
    let plan = server.initialize(false, session_header.map(str::to_owned));
    assert!(plan.set_peer_info);
    if let Some(key) = plan.register_as {
        state.register(key, MockSamplingClient { name });
    }
}

/// Serves a request as the endpoint would.
fn serve(
    state: &mut AppState<MockSamplingClient>,
    session: Option<&str>,
    request: MessagesRequest,
) -> Result<MessagesReply, ApiError> {
    let exchange = state.open_exchange(session, request)?;
    let stream = exchange.stream;
    let params = match exchange.step {
        ConversionStep::Finished(Ok(params)) => params,
        ConversionStep::Finished(Err(error)) => return Err(ApiError::from(error)),
        _ => panic!("nothing to load"),
    };
    let sampled = exchange.peer.create_message(params);
    state.close_exchange(stream, Ok(sampled))
}

#[test]
fn stdio_bridge_round_trips_non_streaming_request() {
    let mut state = AppState::new();
    connect(&mut state, &SamplingBridgeServer::stdio(()), None, "mock-client");

    let body = match serve(&mut state, None, request("hello", Some(false))) {
        Ok(MessagesReply::Json(body)) => body,
        other => panic!("expected a response, got {other:?}"),
    };
    assert_eq!(body.model, "mock-client");
    assert_eq!(body.stop_reason.as_deref(), Some("end_turn"));
    assert!(matches!(
        body.content.first(),
        Some(OutputContentBlock::Text { text }) if text == "echo: hello"
    ));
    assert_eq!(body.id, "msg_0");
}

#[test]
fn streaming_endpoint_returns_anthropic_sse_events() {
    let mut state = AppState::new();
    connect(&mut state, &SamplingBridgeServer::stdio(()), None, "mock-client");

    let frames = match serve(&mut state, None, request("hello", Some(true))) {
        Ok(MessagesReply::Events(frames)) => frames,
        other => panic!("expected events, got {other:?}"),
    };
    let mut body = String::new();
    for frame in &frames {
        body.push_str(&format!("event: {}\ndata: {}\n\n", frame.event, frame.data));
    }
    assert!(body.contains("event: message_start"));
    assert!(body.contains("event: content_block_delta"));
    assert!(body.contains("event: message_stop"));
    assert!(body.contains("\"text_delta\""));
}

#[test]
fn http_bridge_registers_session_and_routes_by_header() {
    let mut state = AppState::new();
    let server = SamplingBridgeServer::http(());
    connect(&mut state, &server, None, "nobody");
    connect(&mut state, &server, Some("session-1"), "first");
    connect(&mut state, &server, Some("session-2"), "second");

    for (session, name) in [("session-1", "first"), ("session-2", "second")] {
        match serve(&mut state, Some(session), request("hello", Some(false))) {
            Ok(MessagesReply::Json(body)) => {
                assert!(matches!(
                    body.content.first(),
                    Some(OutputContentBlock::Text { text }) if text == "echo: hello"
                ));
                assert_eq!(body.model, name);
            }
            other => panic!("expected a response, got {other:?}"),
        }
    }
}

#[test]
fn call_of_tool_is_served_as_json_without_stream() {
    let mut state = AppState::new();
    connect(&mut state, &SamplingBridgeServer::stdio(()), None, "mock-client");
    match serve(&mut state, None, request("tool", None)) {
        Ok(MessagesReply::Json(body)) => {
            assert_eq!(body.stop_reason.as_deref(), Some("tool_use"));
            assert!(matches!(
                body.content.first(),
                Some(OutputContentBlock::ToolUse { id, .. }) if id == "toolu_1"
            ));
        }
        other => panic!("expected a response, got {other:?}"),
    }
}

#[test]
fn request_without_client_is_unavailable() {
    let mut state: AppState<MockSamplingClient> = AppState::new();
    match serve(&mut state, None, request("hello", None)) {
        Err(error) => {
            assert_eq!(error.status, SERVICE_UNAVAILABLE);
            let (status, envelope) = error.into_response();
            assert_eq!(status, 503);
            assert_eq!(envelope.object_type, "error");
            assert_eq!(envelope.error.error_type, "service_unavailable_error");
            assert_eq!(envelope.error.message, "no MCP client is connected yet");
        }
        other => panic!("expected an error, got {other:?}"),
    }
}

#[test]
fn request_for_unknown_session_is_unavailable() {
    let mut registry = PeerRegistry::new();
    registry.register("a".to_string(), 1);
    match registry.select(Some("b")) {
        Err(error) => {
            assert_eq!(error.status, SERVICE_UNAVAILABLE);
            assert_eq!(error.message, "no MCP client session registered for 'b'");
        }
        other => panic!("expected an error, got {other:?}"),
    }
    assert_eq!(registry.select(Some("a")).expect("registered"), &1);
}

#[test]
fn only_client_serves_requests_without_session() {
    let mut registry = PeerRegistry::new();
    registry.register("a".to_string(), 1);
    assert_eq!(registry.select(None).expect("the only one"), &1);
    registry.register("a".to_string(), 2);
    assert_eq!(registry.select(None).expect("still the only one"), &2);
}

#[test]
fn request_must_choose_between_clients() {
    let mut registry = PeerRegistry::new();
    registry.register("a".to_string(), 1);
    registry.register("b".to_string(), 2);
    match registry.select(None) {
        Err(error) => {
            assert_eq!(error.status, BAD_REQUEST);
            assert_eq!(error.error_type, "invalid_request_error");
            assert_eq!(
                error.message,
                "multiple MCP client sessions are connected; set the 'x-mcp-session-id' header"
            );
        }
        other => panic!("expected an error, got {other:?}"),
    }
    registry.register(DEFAULT_STDIO_SESSION_KEY.to_string(), 3);
    assert_eq!(registry.select(None).expect("the one on stdio"), &3);
    assert_eq!(registry.select(Some("b")).expect("the one chosen"), &2);
}

#[test]
fn message_ids_count_up() {
    let mut state: AppState<()> = AppState::new();
    let mut ids = Vec::new();
    for _ in 0..12 {
        ids.push(state.allocate_message_id());
    }
    assert_eq!(ids[0], "msg_0");
    assert_eq!(ids[9], "msg_9");
    assert_eq!(ids[11], "msg_11");
    ids.dedup();
    assert_eq!(ids.len(), 12);
}

#[test]
fn client_that_fails_is_an_upstream_error_and_takes_no_id() {
    let mut state: AppState<()> = AppState::new();
    match state.close_exchange(false, Err(ServiceFailure::Rejected("-1: no".to_string()))) {
        Err(error) => {
            assert_eq!(error.status, BAD_GATEWAY);
            assert_eq!(error.error_type, "api_error");
            assert_eq!(error.message, "MCP client rejected sampling request: -1: no");
        }
        other => panic!("expected an error, got {other:?}"),
    }
    match state.close_exchange(true, Err(ServiceFailure::Unreachable("closed".to_string()))) {
        Err(error) => {
            assert_eq!(error.status, 502);
            assert_eq!(error.message, "failed to reach MCP client: closed");
        }
        other => panic!("expected an error, got {other:?}"),
    }
    assert_eq!(state.allocate_message_id(), "msg_0");
}

#[test]
fn result_without_response_is_the_fault_of_the_request() {
    for stream in [false, true] {
        let mut state: AppState<()> = AppState::new();
        let result = SamplingResult {
            role: Role::User,
            content: Vec::new(),
            model: "m".to_string(),
            stop_reason: None,
        };
        match state.close_exchange(stream, Ok(result)) {
            Err(error) => {
                assert_eq!(error.status, 400);
                assert_eq!(error.message, "CreateMessageResult role must be 'assistant'");
            }
            other => panic!("expected an error, got {other:?}"),
        }
        assert_eq!(state.allocate_message_id(), "msg_1");
    }
}

#[test]
fn errors_of_conversion_are_bad_requests() {
    let errors = vec![
        BridgeError::InvalidAnthropicRequest("a".to_string()),
        BridgeError::UnsupportedAnthropicFeature("a".to_string()),
    ];
    for error in errors {
        let (status, envelope) = ApiError::from(error).into_response();
        assert_eq!(status, 400);
        assert_eq!(envelope.error.error_type, "invalid_request_error");
        assert_eq!(envelope.error.message, "a");
    }
    assert_eq!(ApiError::unsupported("b".to_string()).status, 400);
}

#[test]
fn sessions_get_their_keys() {
    let stdio = SamplingBridgeServer::stdio(());
    assert_eq!(stdio.on_initialized(Some("x".to_string())).as_deref(), Some("stdio"));
    assert_eq!(stdio.initialize(true, None).register_as.as_deref(), Some("stdio"));
    assert!(!stdio.initialize(true, None).set_peer_info);
    let http = SamplingBridgeServer::http(());
    assert_eq!(http.on_initialized(Some("x".to_string())).as_deref(), Some("x"));
    assert_eq!(http.on_initialized(None), None);
    assert!(matches!(http.registration_strategy, RegistrationStrategy::HttpSessionHeader));
}

#[test]
fn names_are_those_of_the_protocols() {
    assert_eq!(MCP_SESSION_HEADER, "mcp-session-id");
    assert_eq!(API_SESSION_HEADER, "x-mcp-session-id");
    assert_eq!(HEALTHY, "ok");
    assert_eq!(
        INSTRUCTIONS,
        "sampling2api exposes Anthropic-compatible HTTP endpoints backed by MCP client sampling."
    );
}

#[test]
fn nothing_is_connected_by_default() {
    let registry: PeerRegistry<()> = PeerRegistry::default();
    assert_eq!(registry.select(None).unwrap_err().status, 503);
    let mut state: AppState<()> = AppState::default();
    assert!(state.peers().select(Some("stdio")).is_err());
    assert_eq!(state.allocate_message_id(), "msg_0");
}
