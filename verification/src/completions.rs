//! The chat-completions dialect: `POST {base}/chat/completions`, Bearer key,
//! SSE deltas at `choices[0].delta`, streamed tool-call argument fragments
//! accumulated by index, a final usage frame, `[DONE]` sentinel.
pub mod rejected;
pub mod request;
pub mod body;
pub mod exchange;
pub mod decoder;
pub mod laws;
pub mod calls;
