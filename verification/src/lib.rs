//! An OpenAI-compatible chat-completions relay in front of a model-hosting backend:
//! the part of it that decides. A conversation is rendered into the prompt that a
//! model family expects, the model is looked up in a directory of routes, and the
//! backend's reply, whole or streamed in arbitrary fragments, is turned into
//! chat-completion responses. Receiving requests and calling the backend is left to
//! the program around this library.

pub mod buffer;
pub mod chat_template;
pub mod chat_template_laws;
pub mod endpoint_loader;
pub mod error;
pub mod finish_reason;
pub mod finish_reason_laws;
pub mod reassembly;
pub mod reassembly_laws;
pub mod request;
pub mod response;
pub mod stream;
pub mod stream_laws;
pub mod text;
pub mod types;
pub mod utf8;
