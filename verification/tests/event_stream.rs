use openai_inference::{
    decode_with, string_chunks, ChatCompletionStreamHandler, Delimiter, EventStream, Step,
    StreamError,
};

fn item(text: &str) -> Step {
    Step::Item(Ok(text.to_string()))
}

fn decode_all(
    items: Vec<Result<String, StreamError>>,
) -> Vec<Result<serde_json::Value, StreamError>> {
    let mut decoded = Vec::new();
    for item in items {
        decoded.push(match item {
            Ok(payload) => {
                let parsed = serde_json::from_str::<serde_json::Value>(&payload).ok();
                decode_with(payload, parsed)
            }
            Err(error) => Err(error),
        });
    }
    decoded
}

#[test]
fn pulls_ask_for_a_fragment_only_when_no_frame_is_left() {
    let mut stream = EventStream::with_convention(Delimiter::Newlines);
    assert_eq!(stream.poll(), Step::NeedFragment);
    assert_eq!(stream.poll(), Step::NeedFragment);
    stream.supply(b"data: a\n\ndata: b\n\ndata: c");
    assert_eq!(stream.poll(), item("a"));
    assert_eq!(stream.poll(), item("b"));
    assert_eq!(stream.poll(), Step::NeedFragment);
    stream.supply(b"\n");
    assert_eq!(stream.poll(), Step::NeedFragment);
    stream.supply(b"\n");
    assert_eq!(stream.poll(), item("c"));
    assert_eq!(stream.poll(), Step::NeedFragment);
    stream.exhaust();
    assert!(!stream.is_ended());
    assert_eq!(stream.poll(), Step::Done);
    assert!(stream.is_ended());
    assert_eq!(stream.poll(), Step::Done);
}

#[test]
fn sentinel_ends_the_stream_and_drops_the_rest() {
    let mut stream = EventStream::with_convention(Delimiter::Newlines);
    stream.supply(b"data: a\n\ndata: [DONE]\n\ndata: b\n\n");
    assert_eq!(stream.poll(), item("a"));
    assert_eq!(stream.poll(), Step::Done);
    assert!(stream.is_ended());
    stream.supply(b"data: c\n\n");
    assert_eq!(stream.poll(), Step::Done);
}

#[test]
fn unfinished_sentinel_at_the_end_is_no_error() {
    let mut stream = EventStream::with_convention(Delimiter::Newlines);
    stream.supply(b"data: [DONE]");
    assert_eq!(stream.poll(), Step::NeedFragment);
    stream.exhaust();
    assert_eq!(stream.poll(), Step::Done);
}

#[test]
fn unfinished_frame_at_the_end_is_incomplete() {
    let mut stream = EventStream::with_convention(Delimiter::Newlines);
    stream.supply(b"data: piece 1\n\ndata: partial");
    stream.exhaust();
    assert_eq!(stream.poll(), item("piece 1"));
    assert_eq!(stream.poll(), Step::Item(Err(StreamError::IncompleteFrame)));
    assert_eq!(stream.poll(), Step::Done);
}

#[test]
fn unfinished_bytes_that_are_no_text_are_incomplete() {
    let mut stream = EventStream::with_convention(Delimiter::Newlines);
    stream.supply(b"\xff");
    stream.exhaust();
    assert_eq!(stream.poll(), Step::Item(Err(StreamError::IncompleteFrame)));
    assert_eq!(stream.poll(), Step::Done);
}

#[test]
fn failure_comes_after_the_frames_that_were_complete() {
    let mut stream = EventStream::with_convention(Delimiter::Newlines);
    stream.supply(b"data: a\n\ndata: b");
    stream.fail("broken pipe".to_string());
    stream.supply(b"\n\n");
    stream.exhaust();
    assert_eq!(stream.poll(), item("a"));
    assert_eq!(
        stream.poll(),
        Step::Item(Err(StreamError::TransportError("broken pipe".to_string())))
    );
    assert_eq!(stream.poll(), Step::Done);
}

#[test]
fn first_report_on_the_source_stands() {
    let mut stream = EventStream::with_convention(Delimiter::Newlines);
    stream.exhaust();
    stream.fail("late".to_string());
    assert_eq!(stream.poll(), Step::Done);

    let mut stream = EventStream::with_convention(Delimiter::Newlines);
    stream.fail("first".to_string());
    stream.fail("second".to_string());
    stream.exhaust();
    assert_eq!(stream.poll(), Step::Item(Err(StreamError::TransportError("first".to_string()))));
    assert_eq!(stream.poll(), Step::Done);
}

#[test]
fn bytes_that_are_no_text_end_the_stream() {
    let mut stream = EventStream::with_convention(Delimiter::Newlines);
    stream.supply(b"data: \xc3\x28\n\ndata: a\n\n");
    assert_eq!(stream.poll(), Step::Item(Err(StreamError::Utf8DecodeError)));
    assert_eq!(stream.poll(), Step::Done);
}

#[test]
fn streams_do_not_share_their_buffers() {
    let mut first = EventStream::with_convention(Delimiter::Newlines);
    let mut second = EventStream::with_convention(Delimiter::Newlines);
    first.supply(b"data: a\n");
    second.supply(b"\n");
    assert_eq!(first.poll(), Step::NeedFragment);
    assert_eq!(second.poll(), Step::NeedFragment);
    first.supply(b"\n");
    assert_eq!(first.poll(), item("a"));
}

#[test]
fn empty_delimiter_makes_no_stream() {
    assert!(EventStream::new(b"").is_none());
    assert!(ChatCompletionStreamHandler::new("").open().is_none());
}

#[test]
fn handler_opens_streams_for_its_delimiter() {
    let handler = ChatCompletionStreamHandler::new("\\n\\n");
    assert_eq!(handler.stream_event_delimiter(), "\\n\\n");
    let mut stream = handler.open().unwrap();
    stream.supply(b"data: a\n\ndata: b\\n\\n");
    assert_eq!(stream.poll(), item("a\n\ndata: b"));
    assert_eq!(stream.poll(), Step::NeedFragment);

    let mut other = ChatCompletionStreamHandler::new("\u{2028}").open().unwrap();
    other.supply("data: a\u{2028}data: b".as_bytes());
    assert_eq!(other.poll(), item("a"));
    assert_eq!(other.poll(), Step::NeedFragment);
}

#[test]
fn decode_with_keeps_the_value_or_the_offending_text() {
    assert_eq!(decode_with("7".to_string(), Some(7u8)), Ok(7u8));
    assert_eq!(
        decode_with::<u8>("seven".to_string(), None),
        Err(StreamError::JsonDecodeError("seven".to_string()))
    );
}

#[test]
fn malformed_payload_is_one_error_among_the_items() {
    let source = vec![
        Ok(bytes::Bytes::from_static(b"data: {\"id\":1}\n\ndata: {\"id\":\n\n")),
        Ok(bytes::Bytes::from_static(b"data: {\"id\":3}\n\ndata: [DONE]\n\n")),
    ];
    let decoded = decode_all(string_chunks(source, "\n\n").unwrap());
    assert_eq!(decoded.len(), 3);
    assert_eq!(
        decoded[0].as_ref().ok().and_then(|value| value.get("id")).and_then(|id| id.as_u64()),
        Some(1)
    );
    assert_eq!(decoded[1], Err(StreamError::JsonDecodeError("{\"id\":".to_string())));
    assert_eq!(
        decoded[2].as_ref().ok().and_then(|value| value.get("id")).and_then(|id| id.as_u64()),
        Some(3)
    );
}

#[test]
fn only_a_payload_that_fails_to_parse_leaves_the_stream_running() {
    assert!(StreamError::TransportError("x".to_string()).is_terminal());
    assert!(StreamError::IncompleteFrame.is_terminal());
    assert!(StreamError::Utf8DecodeError.is_terminal());
    assert!(!StreamError::JsonDecodeError("x".to_string()).is_terminal());
}
