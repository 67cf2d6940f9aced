//! Incremental decoding of server-sent event streams, as used by chat
//! completion endpoints, together with the request and response models of
//! the inference client.
//!
//! The byte stream of a response body arrives in fragments of arbitrary
//! size. [`framing`] cuts it into delimiter-bounded frames, [`event`] reads
//! a frame as protocol text, [`stream`] composes both into a pull-driven
//! sequence of payloads and errors, and [`decode`] attaches the outcome of
//! structured parsing to a payload.

pub mod audio;
pub mod auth;
pub mod body;
pub mod chat;
pub mod decode;
pub mod error;
pub mod event;
pub mod form;
pub mod fragment;
pub mod framing;
pub mod service;
pub mod stream;

pub use crate::audio::{CreateTranscriptionRequest, CreateTranslationRequest, OutputFormat};
pub use crate::auth::{AzureKeyCredential, OpenAIKeyCredential};
pub use crate::body::Body;
pub use crate::chat::{
    ChatCompletionChoice, ChatCompletionRequestMessage, ChatCompletionRequestMessageBase,
    ChatCompletionResponseMessage, CreateChatCompletionsOptions, CreateChatCompletionsRequest,
    CreateChatCompletionsResponse,
};
pub use crate::decode::decode_with;
pub use crate::error::StreamError;
pub use crate::event::{extract, Event};
pub use crate::form::{MyForm, MyPart};
pub use crate::framing::{Delimiter, FrameAccumulator};
pub use crate::service::AzureServiceVersion;
pub use crate::stream::{string_chunks, ChatCompletionStreamHandler, EventStream, Step};
