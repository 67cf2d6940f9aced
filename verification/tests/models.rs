use openai_inference::service::{
    audio_transcriptions_url, chat_completions_url, openai_audio_transcriptions_url,
    openai_chat_completions_url, path_and_query,
};
use openai_inference::{
    AzureKeyCredential, AzureServiceVersion, Body, ChatCompletionRequestMessage,
    ChatCompletionRequestMessageBase, CreateChatCompletionsOptions, CreateChatCompletionsRequest,
    CreateTranscriptionRequest, MyForm, MyPart, OpenAIKeyCredential, OutputFormat,
};

#[test]
fn service_versions_are_spelled_as_the_service_does() {
    assert_eq!(AzureServiceVersion::V2023_09_01Preview.as_str(), "2023-09-01-preview");
    assert_eq!(AzureServiceVersion::V2023_12_01Preview.as_str(), "2023-12-01-preview");
}

#[test]
fn output_formats_have_their_names() {
    assert_eq!(OutputFormat::JSON.to_string(), "json");
    assert_eq!(OutputFormat::Text.to_string(), "text");
    assert_eq!(OutputFormat::SRT.to_string(), "srt");
    assert_eq!(OutputFormat::VerboseJSON.to_string(), "verbose_json");
    assert_eq!(OutputFormat::VTT.to_string(), "vtt");
    assert_eq!(OutputFormat::VTT.as_str(), "vtt");
    assert_eq!(OutputFormat::default(), OutputFormat::Text);
}

#[test]
fn user_and_system_messages_have_no_name() {
    match ChatCompletionRequestMessage::new_user("hello") {
        ChatCompletionRequestMessage::User(base) => {
            assert_eq!(base.content, "hello");
            assert_eq!(base.name, None);
        }
        ChatCompletionRequestMessage::System(_) => panic!("a user message was asked for"),
    }
    match ChatCompletionRequestMessage::new_system("be brief") {
        ChatCompletionRequestMessage::System(base) => {
            assert_eq!(base.content, "be brief");
            assert_eq!(base.name, None);
        }
        ChatCompletionRequestMessage::User(_) => panic!("a system message was asked for"),
    }
}

#[test]
fn request_with_user_message_holds_one_message() {
    let request = CreateChatCompletionsRequest::new_with_user_message("gpt-4", "Tell me a joke");
    assert_eq!(request.model, "gpt-4");
    assert_eq!(request.messages.len(), 1);
    match &request.messages[0] {
        ChatCompletionRequestMessage::User(base) => {
            assert_eq!(base.content, "Tell me a joke");
            assert_eq!(base.name, None);
        }
        ChatCompletionRequestMessage::System(_) => panic!("a user message was asked for"),
    }
}

#[test]
fn defaults_are_empty() {
    let request = CreateChatCompletionsRequest::default();
    assert_eq!(request.model, "");
    assert!(request.messages.is_empty());
    let base = ChatCompletionRequestMessageBase::default();
    assert_eq!(base.content, "");
    assert_eq!(base.name, None);
    let transcription = CreateTranscriptionRequest::default();
    assert!(transcription.file.is_empty());
    assert_eq!(transcription.file_name, "");
    assert_eq!(transcription.response_format, OutputFormat::Text);
    assert_eq!(transcription.model, None);
}

#[test]
fn options_hold_the_prompt() {
    assert_eq!(CreateChatCompletionsOptions::new("Tell me a joke").prompt, "Tell me a joke");
}

#[test]
fn transcription_as_text_names_the_model() {
    let request = CreateTranscriptionRequest::new_as_text(vec![1, 2, 3], "speech.mp3");
    assert_eq!(request.file, vec![1, 2, 3]);
    assert_eq!(request.file_name, "speech.mp3");
    assert_eq!(request.response_format, OutputFormat::Text);
    assert_eq!(request.model, Some("whisper-1".to_string()));
}

#[test]
fn forms_keep_their_parts_in_order() {
    let form = MyForm::new();
    assert_eq!(form.len(), 0);
    let form = form.text("response_format", "text").file("speech.mp3", vec![9, 8]).text("a", "");
    assert_eq!(form.len(), 3);
    match form.part(0) {
        MyPart::Text { name, value } => {
            assert_eq!(name, "response_format");
            assert_eq!(value, "text");
        }
        MyPart::File { .. } => panic!("the first part is a text field"),
    }
    match form.part(1) {
        MyPart::File { name, bytes } => {
            assert_eq!(name, "speech.mp3");
            assert_eq!(bytes, &vec![9, 8]);
        }
        MyPart::Text { .. } => panic!("the second part is a file"),
    }
    match form.part(2) {
        MyPart::Text { name, value } => {
            assert_eq!(name, "a");
            assert_eq!(value, "");
        }
        MyPart::File { .. } => panic!("the third part is a text field"),
    }
}

#[test]
fn transcription_forms_differ_by_the_model() {
    let mut request = CreateTranscriptionRequest::new_as_text(vec![7], "a.wav");
    request.response_format = OutputFormat::VerboseJSON;
    let azure = request.azure_form();
    assert_eq!(azure.len(), 2);
    match azure.part(0) {
        MyPart::Text { name, value } => {
            assert_eq!(name, "response_format");
            assert_eq!(value, "verbose_json");
        }
        MyPart::File { .. } => panic!("the first part is a text field"),
    }
    match azure.part(1) {
        MyPart::File { name, bytes } => {
            assert_eq!(name, "a.wav");
            assert_eq!(bytes, &vec![7]);
        }
        MyPart::Text { .. } => panic!("the second part is a file"),
    }
    let openai = request.openai_form();
    assert_eq!(openai.len(), 3);
    match openai.part(1) {
        MyPart::Text { name, value } => {
            assert_eq!(name, "model");
            assert_eq!(value, "whisper-1");
        }
        MyPart::File { .. } => panic!("the second part is a text field"),
    }
    match openai.part(2) {
        MyPart::File { name, bytes } => {
            assert_eq!(name, "a.wav");
            assert_eq!(bytes, &vec![7]);
        }
        MyPart::Text { .. } => panic!("the third part is a file"),
    }
}

#[test]
fn credentials_give_the_authorization_header() {
    let azure = AzureKeyCredential::new("k3y".to_string());
    assert_eq!(azure.name(), "authorization");
    assert_eq!(azure.value(), "api-key k3y");
    let openai = OpenAIKeyCredential::new("t0ken".to_string());
    assert_eq!(openai.name(), "authorization");
    assert_eq!(openai.value(), "Bearer t0ken");
    assert_eq!(OpenAIKeyCredential::new(String::new()).value(), "Bearer ");
}

#[test]
fn addresses_are_built_from_their_parts() {
    assert_eq!(
        chat_completions_url(
            "https://example.openai.azure.com",
            "gpt-4-1106-preview",
            AzureServiceVersion::V2023_12_01Preview
        ),
        "https://example.openai.azure.com/openai/deployments/gpt-4-1106-preview/chat/completions?api-version=2023-12-01-preview"
    );
    assert_eq!(
        audio_transcriptions_url("e", "d", AzureServiceVersion::V2023_09_01Preview),
        "e/openai/deployments/d/audio/transcriptions?api-version=2023-09-01-preview"
    );
    assert_eq!(openai_chat_completions_url(), "https://api.openai.com/v1/chat/completions");
    assert_eq!(
        openai_audio_transcriptions_url(),
        "https://api.openai.com/v1/audio/transcriptions"
    );
}

#[test]
fn query_follows_the_path_behind_a_question_mark() {
    assert_eq!(path_and_query("/a/b", Some("x=1&y=2")), "/a/b?x=1&y=2");
    assert_eq!(path_and_query("/a/b", Some("")), "/a/b?");
    assert_eq!(path_and_query("/a/b", None), "/a/b");
    assert_eq!(path_and_query("", None), "");
}

#[test]
fn body_knows_the_size_of_bytes_only() {
    let bytes = Body::from(bytes::Bytes::from_static(b"{\"a\":1}"));
    assert_eq!(bytes.len(), 7);
    assert!(!bytes.is_empty());
    let nothing = Body::Bytes(bytes::Bytes::new());
    assert_eq!(nothing.len(), 0);
    assert!(nothing.is_empty());
    let form = Body::from(MyForm::new().text("a", "b").file("f", vec![1, 2, 3]));
    assert_eq!(form.len(), 0);
    assert!(form.is_empty());
}

#[test]
fn body_clone_keeps_kind_and_bytes() {
    match Body::Bytes(bytes::Bytes::from_static(b"abc")).clone() {
        Body::Bytes(bytes) => assert_eq!(&bytes[..], b"abc"),
        Body::Multipart(_) => panic!("a body of bytes was cloned"),
    }
    match Body::Multipart(MyForm::new().text("a", "b")).clone() {
        Body::Multipart(form) => assert_eq!(form.len(), 1),
        Body::Bytes(_) => panic!("a form was cloned"),
    }
}
