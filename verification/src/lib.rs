//! A verified core for webmachine-style HTTP resource handling.
pub mod views;
pub mod text;
pub mod headers;
pub mod context;
pub mod paths;
pub mod query;
pub mod content_negotiation;
pub mod dates;
pub mod decisions;
pub mod state_machine;
pub mod finalise;
pub mod request;
