//! Event decoding: a payload and the outcome of its structured parsing.

use crate::error::{StreamError, StreamErrorView};
use vstd::prelude::*;

verus! {

/// Attaches the outcome of structured parsing to the payload it was tried
/// on. A parsed value is the decoded event; a payload that did not parse
/// gives `JsonDecodeError` with the offending text. The error is an item
/// like any other: the stream it came from is not touched and goes on.
pub fn decode_with<T>(payload: String, parsed: Option<T>) -> (decoded: Result<T, StreamError>)
    ensures
        match parsed {
            Some(value) => decoded == Ok::<T, StreamError>(value),
            None => decoded matches Err(error) && error@ == StreamErrorView::JsonDecodeError(
                payload@,
            ),
        },
{
    match parsed {
        Some(value) => Ok(value),
        None => Err(StreamError::JsonDecodeError(payload)),
    }
}

} // verus!
