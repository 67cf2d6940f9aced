//! Requests for chat completions and the responses to them.

use vstd::prelude::*;

verus! {

/// A request for a chat completion.
#[derive(Debug, Clone)]
pub struct CreateChatCompletionsRequest {
    pub messages: Vec<ChatCompletionRequestMessage>,
    pub model: String,
}

/// What every message of a request holds.
#[derive(Debug, Clone)]
pub struct ChatCompletionRequestMessageBase {
    pub name: Option<String>,
    pub content: String,
}

/// One message of a request, by the role of its author.
#[derive(Debug, Clone)]
pub enum ChatCompletionRequestMessage {
    System(ChatCompletionRequestMessageBase),
    User(ChatCompletionRequestMessageBase),
}

impl ChatCompletionRequestMessageBase {
    /// A message without a name whose content is `content`.
    pub open spec fn unnamed(&self, content: Seq<char>) -> bool {
        self.name is None && self.content@ == content
    }
}

impl Default for ChatCompletionRequestMessageBase {
    fn default() -> (base: ChatCompletionRequestMessageBase)
        ensures
            base.unnamed(Seq::empty()),
    {
        ChatCompletionRequestMessageBase { name: None, content: String::new() }
    }
}

impl Default for CreateChatCompletionsRequest {
    fn default() -> (request: CreateChatCompletionsRequest)
        ensures
            request.messages@.len() == 0,
            request.model@ == Seq::<char>::empty(),
    {
        CreateChatCompletionsRequest { messages: Vec::new(), model: String::new() }
    }
}

impl ChatCompletionRequestMessage {
    /// A message of the user, without a name.
    pub fn new_user(content: &str) -> (message: ChatCompletionRequestMessage)
        ensures
            message matches ChatCompletionRequestMessage::User(base) && base.unnamed(content@),
    {
        ChatCompletionRequestMessage::User(
            ChatCompletionRequestMessageBase { content: content.to_owned(), name: None },
        )
    }

    /// A message of the system, without a name.
    pub fn new_system(content: &str) -> (message: ChatCompletionRequestMessage)
        ensures
            message matches ChatCompletionRequestMessage::System(base) && base.unnamed(content@),
    {
        ChatCompletionRequestMessage::System(
            ChatCompletionRequestMessageBase { content: content.to_owned(), name: None },
        )
    }
}

impl CreateChatCompletionsRequest {
    /// A request to `model` that holds one message of the user, `prompt`.
    pub fn new_with_user_message(model: &str, prompt: &str) -> (request:
        CreateChatCompletionsRequest)
        ensures
            request.model@ == model@,
            request.messages@.len() == 1,
            request.messages@[0] matches ChatCompletionRequestMessage::User(base) && base.unnamed(
                prompt@,
            ),
    {
        CreateChatCompletionsRequest {
            model: model.to_owned(),
            messages: vec![ChatCompletionRequestMessage::new_user(prompt)],
        }
    }
}

/// The response to a request for a chat completion.
#[derive(Debug, Clone)]
pub struct CreateChatCompletionsResponse {
    pub choices: Vec<ChatCompletionChoice>,
}

/// One completion that the service offers.
#[derive(Debug, Clone)]
pub struct ChatCompletionChoice {
    pub message: ChatCompletionResponseMessage,
}

/// The message of a completion.
#[derive(Debug, Clone)]
pub struct ChatCompletionResponseMessage {
    pub content: String,
    pub role: String,
}

/// The options of a completion request that holds a bare prompt.
#[derive(Debug, Clone)]
pub struct CreateChatCompletionsOptions {
    pub prompt: String,
}

impl CreateChatCompletionsOptions {
    /// Options that hold `prompt`.
    pub fn new(prompt: &str) -> (options: CreateChatCompletionsOptions)
        ensures
            options.prompt@ == prompt@,
    {
        CreateChatCompletionsOptions { prompt: prompt.to_owned() }
    }
}

} // verus!
