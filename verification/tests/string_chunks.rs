use bytes::Bytes;
use openai_inference::{string_chunks, StreamError};

const STREAM_CHUNK_01: &str = r#"data: {"choices":[],"created":0,"id":"","model":"","object":"","prompt_filter_results":[{"prompt_index":0,"content_filter_results":{"custom_blocklists":[],"hate":{"filtered":false,"severity":"safe"},"jailbreak":{"filtered":false,"detected":false},"profanity":{"filtered":false,"detected":false},"self_harm":{"filtered":false,"severity":"safe"},"sexual":{"filtered":false,"severity":"safe"},"violence":{"filtered":false,"severity":"safe"}}}]}\n\n"#;
const STREAM_EVENT_01: &str = r#"{"choices":[],"created":0,"id":"","model":"","object":"","prompt_filter_results":[{"prompt_index":0,"content_filter_results":{"custom_blocklists":[],"hate":{"filtered":false,"severity":"safe"},"jailbreak":{"filtered":false,"detected":false},"profanity":{"filtered":false,"detected":false},"self_harm":{"filtered":false,"severity":"safe"},"sexual":{"filtered":false,"severity":"safe"},"violence":{"filtered":false,"severity":"safe"}}}]}"#;

fn fragments(parts: &[&'static [u8]]) -> Vec<Result<Bytes, String>> {
    parts.iter().map(|part| Ok(Bytes::from_static(part))).collect()
}

fn payloads(texts: &[&str]) -> Vec<Result<String, StreamError>> {
    texts.iter().map(|text| Ok(text.to_string())).collect()
}

#[test]
fn clean_chunks() {
    let source_stream = vec![
        Ok(Bytes::from_static(b"data: piece 1\\n\\n")),
        Ok(Bytes::from_static(b"data: piece 2\\n\\n")),
        Ok(Bytes::from_static(b"data: [DONE]\\n\\n")),
    ];

    let actual = string_chunks(source_stream, "\\n\\n").unwrap();

    let expected: Vec<Result<String, StreamError>> =
        vec![Ok("piece 1".to_string()), Ok("piece 2".to_string())];
    assert_eq!(expected, actual);
}

// The bodies below end their events with the escaped convention, so that
// is the delimiter the stream is opened with.
#[test]
fn multiple_message_in_one_chunk() {
    let source_stream = vec![
        Ok(Bytes::from_static(b"data: piece 1\\n\\ndata: piece 2\\n\\n")),
        Ok(Bytes::from_static(b"data: piece 3\\n\\ndata: [DONE]\\n\\n")),
    ];

    let actual = string_chunks(source_stream, "\\n\\n").unwrap();

    let expected: Vec<Result<String, StreamError>> = vec![
        Ok("piece 1".to_string()),
        Ok("piece 2".to_string()),
        Ok("piece 3".to_string()),
    ];
    assert_eq!(expected, actual);
}

#[test]
fn event_delimeter_split_across_chunks() {
    let source_stream = vec![
        Ok(Bytes::from_static(b"data: piece 1\\n")),
        Ok(Bytes::from_static(b"\\ndata: [DONE]")),
    ];

    let actual = string_chunks(source_stream, "\\n\\n").unwrap();

    let expected: Vec<Result<String, StreamError>> = vec![Ok("piece 1".to_string())];
    assert_eq!(expected, actual);
}

#[test]
fn event_delimiter_at_start_of_next_chunk() {
    let source_stream = vec![
        Ok(Bytes::from_static(b"data: piece 1")),
        Ok(Bytes::from_static(b"\\n\\ndata: [DONE]")),
    ];

    let actual = string_chunks(source_stream, "\\n\\n").unwrap();

    let expected: Vec<Result<String, StreamError>> = vec![Ok("piece 1".to_string())];
    assert_eq!(expected, actual);
}

#[test]
fn real_data() {
    let source_stream = vec![Ok(Bytes::from(STREAM_CHUNK_01))];

    let actual = string_chunks(source_stream, "\\n\\n").unwrap();

    let expected: Vec<Result<String, StreamError>> = vec![Ok(STREAM_EVENT_01.to_string())];
    assert_eq!(expected, actual);
}

#[test]
fn newline_frames_in_order_then_sentinel() {
    let source = fragments(&[b"data: piece 1\n\n", b"data: piece 2\n\n", b"data: [DONE]"]);
    assert_eq!(string_chunks(source, "\n\n").unwrap(), payloads(&["piece 1", "piece 2"]));
}

#[test]
fn newline_several_frames_in_one_fragment() {
    let source =
        fragments(&[b"data: piece 1\n\ndata: piece 2\n\n", b"data: piece 3\n\ndata: [DONE]"]);
    assert_eq!(
        string_chunks(source, "\n\n").unwrap(),
        payloads(&["piece 1", "piece 2", "piece 3"])
    );
}

#[test]
fn newline_delimiter_split_between_fragments() {
    let source = fragments(&[b"data: piece 1\n", b"\ndata: [DONE]"]);
    assert_eq!(string_chunks(source, "\n\n").unwrap(), payloads(&["piece 1"]));
}

#[test]
fn newline_delimiter_opens_next_fragment() {
    let source = fragments(&[b"data: piece 1", b"\n\ndata: [DONE]"]);
    assert_eq!(string_chunks(source, "\n\n").unwrap(), payloads(&["piece 1"]));
}

#[test]
fn unfinished_frame_is_an_error_not_a_payload() {
    let source = fragments(&[b"data: piece 1\n\ndata: partial"]);
    let expected: Vec<Result<String, StreamError>> =
        vec![Ok("piece 1".to_string()), Err(StreamError::IncompleteFrame)];
    assert_eq!(string_chunks(source, "\n\n").unwrap(), expected);
}

#[test]
fn empty_source_yields_nothing() {
    assert_eq!(string_chunks(Vec::new(), "\n\n").unwrap(), Vec::new());
    assert_eq!(string_chunks(fragments(&[b"", b""]), "\n\n").unwrap(), Vec::new());
}

#[test]
fn empty_delimiter_is_refused() {
    assert_eq!(string_chunks(fragments(&[b"data: x\n\n"]), ""), None);
    assert_eq!(string_chunks(Vec::new(), ""), None);
}

#[test]
fn sentinel_discards_what_follows() {
    let source = fragments(&[b"data: a\n\ndata: [DONE]\n\ndata: b\n\ndata: c", b"data: d\n\n"]);
    assert_eq!(string_chunks(source, "\n\n").unwrap(), payloads(&["a"]));
}

#[test]
fn sentinel_before_a_failure_hides_it() {
    let source = vec![
        Ok(Bytes::from_static(b"data: a\n\ndata: [DONE]\n\n")),
        Err("connection reset".to_string()),
    ];
    assert_eq!(string_chunks(source, "\n\n").unwrap(), payloads(&["a"]));
}

#[test]
fn transport_failure_is_the_last_item() {
    let source = vec![
        Ok(Bytes::from_static(b"data: a\n\ndata: b")),
        Err("timed out".to_string()),
        Ok(Bytes::from_static(b"\n\ndata: c\n\n")),
    ];
    let expected: Vec<Result<String, StreamError>> = vec![
        Ok("a".to_string()),
        Err(StreamError::TransportError("timed out".to_string())),
    ];
    assert_eq!(string_chunks(source, "\n\n").unwrap(), expected);
}

#[test]
fn invalid_utf8_ends_the_stream() {
    let source = fragments(&[b"data: a\n\n\xff\xfe\n\ndata: b\n\n"]);
    let expected: Vec<Result<String, StreamError>> =
        vec![Ok("a".to_string()), Err(StreamError::Utf8DecodeError)];
    assert_eq!(string_chunks(source, "\n\n").unwrap(), expected);
}

#[test]
fn multibyte_text_survives_a_cut_inside_a_character() {
    let body = "data: caf\u{e9} \u{4f60}\u{597d}\n\ndata: [DONE]\n\n".as_bytes();
    for cut in 0..=body.len() {
        let source = vec![
            Ok(Bytes::copy_from_slice(&body[..cut])),
            Ok(Bytes::copy_from_slice(&body[cut..])),
        ];
        assert_eq!(
            string_chunks(source, "\n\n").unwrap(),
            payloads(&["caf\u{e9} \u{4f60}\u{597d}"])
        );
    }
}

#[test]
fn every_two_cuts_yield_what_the_whole_body_yields() {
    let body: &[u8] = b"data: one\n\ndata:two\n\n\n\ndata: three \n\ndata: tail";
    let whole = string_chunks(vec![Ok(Bytes::copy_from_slice(body))], "\n\n").unwrap();
    let expected: Vec<Result<String, StreamError>> = vec![
        Ok("one".to_string()),
        Ok("two".to_string()),
        Ok("".to_string()),
        Ok("three".to_string()),
        Err(StreamError::IncompleteFrame),
    ];
    assert_eq!(whole, expected);
    for first in 0..=body.len() {
        for second in first..=body.len() {
            let source = vec![
                Ok(Bytes::copy_from_slice(&body[..first])),
                Ok(Bytes::copy_from_slice(&body[first..second])),
                Ok(Bytes::copy_from_slice(&body[second..])),
            ];
            assert_eq!(string_chunks(source, "\n\n").unwrap(), whole);
        }
    }
}

#[test]
fn byte_by_byte_yields_what_the_whole_body_yields() {
    let body: &[u8] = b"data: piece 1\\n\\ndata: piece 2\\n\\ndata: [DONE]\\n\\ndata: no more";
    let source: Vec<Result<Bytes, String>> =
        body.iter().map(|byte| Ok(Bytes::copy_from_slice(&[*byte]))).collect();
    assert_eq!(string_chunks(source, "\\n\\n").unwrap(), payloads(&["piece 1", "piece 2"]));
}

#[test]
fn other_delimiters_are_honoured() {
    let source = fragments(&[b"data: a\r\n\r", b"\ndata: b\n\nstill b\r\n\r\ndata: [DONE]\r\n\r\n"]);
    assert_eq!(
        string_chunks(source, "\r\n\r\n").unwrap(),
        payloads(&["a", "b\n\nstill b"])
    );
}
