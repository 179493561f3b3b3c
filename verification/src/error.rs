//! The errors that converting a request or a result can end in.
use vstd::prelude::*;

verus! {

/// Why a request or a result could not be converted.
#[derive(Debug, Clone)]
pub enum BridgeError {
    /// The request, or what it led to, breaks a rule; the text says which.
    InvalidAnthropicRequest(String),
    /// What came back has no counterpart in the Messages API; the text says what.
    UnsupportedAnthropicFeature(String),
}

/// What a [`BridgeError`] is.
pub enum BridgeErrorView {
    InvalidAnthropicRequest(Seq<char>),
    UnsupportedAnthropicFeature(Seq<char>),
}

impl View for BridgeError {
    type V = BridgeErrorView;

    open spec fn view(&self) -> BridgeErrorView {
        match self {
            BridgeError::InvalidAnthropicRequest(text) => {
                BridgeErrorView::InvalidAnthropicRequest(text@)
            },
            BridgeError::UnsupportedAnthropicFeature(text) => {
                BridgeErrorView::UnsupportedAnthropicFeature(text@)
            },
        }
    }
}

impl BridgeErrorView {
    /// The text without the words that name the kind of error.
    pub open spec fn detail(self) -> Seq<char> {
        match self {
            BridgeErrorView::InvalidAnthropicRequest(text) => text,
            BridgeErrorView::UnsupportedAnthropicFeature(text) => text,
        }
    }

    /// The error as one line: its kind, a colon and its text.
    pub open spec fn message(self) -> Seq<char> {
        match self {
            BridgeErrorView::InvalidAnthropicRequest(text) => {
                "invalid Anthropic request: "@ + text
            },
            BridgeErrorView::UnsupportedAnthropicFeature(text) => {
                "unsupported Anthropic feature: "@ + text
            },
        }
    }
}

impl BridgeError {
    /// The error as one line, for people to read.
    pub fn message(&self) -> (line: String)
        ensures
            line@ == self@.message(),
    {
        match self {
            BridgeError::InvalidAnthropicRequest(text) => {
                let mut line = "invalid Anthropic request: ".to_owned();
                line.append(text.as_str());
                line
            },
            BridgeError::UnsupportedAnthropicFeature(text) => {
                let mut line = "unsupported Anthropic feature: ".to_owned();
                line.append(text.as_str());
                line
            },
        }
    }
}

/// An error is written as its kind, and behind it the text that it was given.
pub proof fn error_is_written_with_its_text(text: Seq<char>)
    ensures
        BridgeErrorView::InvalidAnthropicRequest(text).message() == "invalid Anthropic request: "@
            + text,
        BridgeErrorView::UnsupportedAnthropicFeature(text).message()
            == "unsupported Anthropic feature: "@ + text,
        BridgeErrorView::InvalidAnthropicRequest(text).detail() == text,
        BridgeErrorView::UnsupportedAnthropicFeature(text).detail() == text,
{
}

} // verus!
