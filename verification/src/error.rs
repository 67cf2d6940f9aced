//! The ways in which a stream of events can fail.

use vstd::prelude::*;

verus! {

/// A failure met while reading a stream of events.
#[derive(Clone, Debug, PartialEq, Eq)]
pub enum StreamError {
    /// The source of fragments failed; carries what the transport reported.
    TransportError(String),
    /// The source ended while bytes of an undelimited frame were buffered.
    IncompleteFrame,
    /// A frame's bytes are not valid UTF-8.
    Utf8DecodeError,
    /// A payload failed structured parsing; carries the offending text.
    JsonDecodeError(String),
}

/// What a [`StreamError`] holds, as plain values.
pub enum StreamErrorView {
    TransportError(Seq<char>),
    IncompleteFrame,
    Utf8DecodeError,
    JsonDecodeError(Seq<char>),
}

impl View for StreamError {
    type V = StreamErrorView;

    open spec fn view(&self) -> StreamErrorView {
        match self {
            StreamError::TransportError(message) => StreamErrorView::TransportError(message@),
            StreamError::IncompleteFrame => StreamErrorView::IncompleteFrame,
            StreamError::Utf8DecodeError => StreamErrorView::Utf8DecodeError,
            StreamError::JsonDecodeError(text) => StreamErrorView::JsonDecodeError(text@),
        }
    }
}

impl StreamError {
    /// Whether the stream ends with this error. Only a payload that fails
    /// to parse leaves the stream running.
    pub open spec fn spec_is_terminal(&self) -> bool {
        !(self is JsonDecodeError)
    }

    /// Whether the stream ends with this error.
    #[verifier::when_used_as_spec(spec_is_terminal)]
    pub fn is_terminal(&self) -> (terminal: bool)
        ensures
            terminal == self.spec_is_terminal(),
    {
        match self {
            StreamError::JsonDecodeError(_) => false,
            _ => true,
        }
    }
}

} // verus!
