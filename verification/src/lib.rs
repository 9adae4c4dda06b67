//! Incremental decoder for a streamed chat-completion response.
//!
//! The library turns an arbitrarily chunked byte stream of server-sent
//! events into a sequence of typed content / reasoning deltas and one final
//! aggregate, handling partial lines across chunk boundaries, a `[DONE]`
//! sentinel, and malformed payloads.

pub mod aggregate;
pub mod delta;
pub mod event;
pub mod frame;
pub mod laws;
pub mod state;
pub mod stream;
