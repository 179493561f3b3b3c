//! The logic of `sampling2api`, a bridge that serves the Anthropic Messages API
//! by asking MCP clients to sample.
//!
//! A request is converted ([`conversion`]), sent to one of the connected
//! clients ([`registry`], [`runtime`]), and the result is converted back
//! ([`response`]), as one piece or as a stream of events ([`streaming`]).
//! [`outcome`] says what a conversion comes to, and [`laws`] what holds of all
//! of them.
pub mod anthropic;
pub mod api;
pub mod conversion;
pub mod error;
pub mod hint;
pub mod image;
pub mod json;
pub mod laws;
pub mod outcome;
pub mod registry;
pub mod response;
pub mod runtime;
pub mod sampling;
pub mod streaming;
pub mod text;
pub mod views;
