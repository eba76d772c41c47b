//! Protocol transform between the OpenAI Responses API and the Chat Completions API.
//!
//! A request to `/v1/responses` becomes a request to `/v1/chat/completions`; what the upstream
//! answers, as one JSON document or as a stream of server-sent events, is turned back into the
//! shape of the Responses API.

pub mod delivery;
pub mod laws;
pub mod request;
pub mod response;
pub mod stream;

pub use self::request::{
    build_chat_request, input_to_messages, responses_to_chat_request, RESPONSES_TO_CHAT,
};
pub use self::response::{
    build_response, chat_response_to_responses, chat_response_to_responses_as,
};
pub use self::stream::{transform_chat_sse_chunk, StreamTransformState, ToolCallState};
