//! The errors that the Messages API answers with.
use vstd::prelude::*;
use vstd::std_specs::convert::FromSpecImpl;

use crate::error::{BridgeError, BridgeErrorView};

verus! {

/// HTTP: the request is at fault.
pub const BAD_REQUEST: u16 = 400;

/// HTTP: the client behind the bridge is at fault.
pub const BAD_GATEWAY: u16 = 502;

/// HTTP: there is no client to serve the request.
pub const SERVICE_UNAVAILABLE: u16 = 503;

/// An error as the Messages API answers with it.
#[derive(Debug)]
pub struct ApiError {
    /// The status of the HTTP response.
    pub status: u16,
    pub error_type: &'static str,
    pub message: String,
}

/// What an [`ApiError`] is.
pub struct ApiErrorView {
    pub status: u16,
    pub error_type: Seq<char>,
    pub message: Seq<char>,
}

impl View for ApiError {
    type V = ApiErrorView;

    open spec fn view(&self) -> ApiErrorView {
        ApiErrorView {
            status: self.status,
            error_type: self.error_type@,
            message: self.message@,
        }
    }
}

impl ApiErrorView {
    /// The request is at fault.
    pub open spec fn invalid_request(message: Seq<char>) -> ApiErrorView {
        ApiErrorView { status: BAD_REQUEST, error_type: "invalid_request_error"@, message }
    }

    /// There is no client to serve the request.
    pub open spec fn service_unavailable(message: Seq<char>) -> ApiErrorView {
        ApiErrorView {
            status: SERVICE_UNAVAILABLE,
            error_type: "service_unavailable_error"@,
            message,
        }
    }

    /// The client behind the bridge is at fault.
    pub open spec fn upstream_error(message: Seq<char>) -> ApiErrorView {
        ApiErrorView { status: BAD_GATEWAY, error_type: "api_error"@, message }
    }

    /// What cannot be converted is the fault of the request.
    pub open spec fn of_bridge_error(error: BridgeErrorView) -> ApiErrorView {
        ApiErrorView::invalid_request(error.detail())
    }

    /// What a client refused, or could not be asked.
    pub open spec fn of_service_failure(failure: ServiceFailureView) -> ApiErrorView {
        match failure {
            ServiceFailureView::Rejected(reason) => ApiErrorView::upstream_error(
                "MCP client rejected sampling request: "@ + reason,
            ),
            ServiceFailureView::Unreachable(reason) => ApiErrorView::upstream_error(
                "failed to reach MCP client: "@ + reason,
            ),
        }
    }
}

/// Why a client gave no result.
#[derive(Debug)]
pub enum ServiceFailure {
    /// It answered with an error.
    Rejected(String),
    /// It could not be asked, or did not answer.
    Unreachable(String),
}

/// What a [`ServiceFailure`] is.
pub enum ServiceFailureView {
    Rejected(Seq<char>),
    Unreachable(Seq<char>),
}

impl View for ServiceFailure {
    type V = ServiceFailureView;

    open spec fn view(&self) -> ServiceFailureView {
        match self {
            ServiceFailure::Rejected(reason) => ServiceFailureView::Rejected(reason@),
            ServiceFailure::Unreachable(reason) => ServiceFailureView::Unreachable(reason@),
        }
    }
}

/// The kind and the text of an error, as they stand in the body of a response.
#[derive(Debug)]
pub struct ErrorBody {
    pub error_type: String,
    pub message: String,
}

/// The body of a response that is an error.
#[derive(Debug)]
pub struct ErrorEnvelope {
    pub object_type: String,
    pub error: ErrorBody,
}

impl ApiError {
    /// The request is at fault.
    pub fn invalid_request(message: String) -> (error: ApiError)
        ensures
            error@ == ApiErrorView::invalid_request(message@),
    {
        ApiError { status: BAD_REQUEST, error_type: "invalid_request_error", message }
    }

    /// The request asks for what the bridge does not have.
    pub fn unsupported(message: String) -> (error: ApiError)
        ensures
            error@ == ApiErrorView::invalid_request(message@),
    {
        ApiError { status: BAD_REQUEST, error_type: "invalid_request_error", message }
    }

    /// There is no client to serve the request.
    pub fn service_unavailable(message: String) -> (error: ApiError)
        ensures
            error@ == ApiErrorView::service_unavailable(message@),
    {
        ApiError { status: SERVICE_UNAVAILABLE, error_type: "service_unavailable_error", message }
    }

    /// The client behind the bridge is at fault.
    pub fn upstream_error(message: String) -> (error: ApiError)
        ensures
            error@ == ApiErrorView::upstream_error(message@),
    {
        ApiError { status: BAD_GATEWAY, error_type: "api_error", message }
    }

    /// What a client refused, or could not be asked.
    pub fn from_service_error(failure: ServiceFailure) -> (error: ApiError)
        ensures
            error@ == ApiErrorView::of_service_failure(failure@),
    {
        match failure {
            ServiceFailure::Rejected(reason) => {
                let mut message = "MCP client rejected sampling request: ".to_owned();
                message.append(reason.as_str());
                ApiError::upstream_error(message)
            },
            ServiceFailure::Unreachable(reason) => {
                let mut message = "failed to reach MCP client: ".to_owned();
                message.append(reason.as_str());
                ApiError::upstream_error(message)
            },
        }
    }

    /// The status and the body of the response that an error is answered with.
    pub fn into_response(self) -> (response: (u16, ErrorEnvelope))
        ensures
            response.0 == self@.status,
            response.1.object_type@ == "error"@,
            response.1.error.error_type@ == self@.error_type,
            response.1.error.message@ == self@.message,
    {
        (
            self.status,
            ErrorEnvelope {
                object_type: "error".to_owned(),
                error: ErrorBody {
                    error_type: self.error_type.to_owned(),
                    message: self.message,
                },
            },
        )
    }
}

impl From<BridgeError> for ApiError {
    /// What cannot be converted is the fault of the request.
    fn from(error: BridgeError) -> (result: ApiError)
        ensures
            result@ == ApiErrorView::of_bridge_error(error@),
    {
        match error {
            BridgeError::InvalidAnthropicRequest(message) => ApiError {
                status: BAD_REQUEST,
                error_type: "invalid_request_error",
                message,
            },
            BridgeError::UnsupportedAnthropicFeature(message) => ApiError {
                status: BAD_REQUEST,
                error_type: "invalid_request_error",
                message,
            },
        }
    }
}

impl FromSpecImpl<BridgeError> for ApiError {
    open spec fn obeys_from_spec() -> bool {
        true
    }

    open spec fn from_spec(error: BridgeError) -> ApiError {
        ApiError {
            status: BAD_REQUEST,
            error_type: "invalid_request_error",
            message: match error {
                BridgeError::InvalidAnthropicRequest(message) => message,
                BridgeError::UnsupportedAnthropicFeature(message) => message,
            },
        }
    }
}

/// Whether an error is answered with this status, this type and this message.
pub open spec fn is_answered(
    error: ApiErrorView,
    status: int,
    error_type: Seq<char>,
    message: Seq<char>,
) -> bool {
    &&& error.status == status
    &&& error.error_type == error_type
    &&& error.message == message
}

/// The request is at fault with the status 400, the client behind the bridge
/// with 502, and a service that is not there has 503. The message is kept.
pub proof fn errors_have_their_statuses(message: Seq<char>)
    ensures
        is_answered(
            ApiErrorView::invalid_request(message),
            400,
            "invalid_request_error"@,
            message,
        ),
        is_answered(ApiErrorView::upstream_error(message), 502, "api_error"@, message),
        is_answered(
            ApiErrorView::service_unavailable(message),
            503,
            "service_unavailable_error"@,
            message,
        ),
{
}

/// What cannot be converted is answered as an invalid request with the text of
/// the error, whichever its kind. What a client refused, or could not be asked,
/// is answered as an error behind the bridge that says which of the two it was.
pub proof fn errors_are_answered_with_their_text(text: Seq<char>)
    ensures
        is_answered(
            ApiErrorView::of_bridge_error(BridgeErrorView::InvalidAnthropicRequest(text)),
            400,
            "invalid_request_error"@,
            text,
        ),
        is_answered(
            ApiErrorView::of_bridge_error(BridgeErrorView::UnsupportedAnthropicFeature(text)),
            400,
            "invalid_request_error"@,
            text,
        ),
        is_answered(
            ApiErrorView::of_service_failure(ServiceFailureView::Rejected(text)),
            502,
            "api_error"@,
            "MCP client rejected sampling request: "@ + text,
        ),
        is_answered(
            ApiErrorView::of_service_failure(ServiceFailureView::Unreachable(text)),
            502,
            "api_error"@,
            "failed to reach MCP client: "@ + text,
        ),
{
}

} // verus!
