//! Event extraction: from a frame's bytes to a payload or the sentinel.

use crate::error::{StreamError, StreamErrorView};
use vstd::prelude::*;
use vstd::string::{StrSliceExecFns, StringSliceAdditionalSpecFns};
use vstd::utf8::{decode_utf8, encode_utf8_decode_utf8, valid_utf8};

verus! {

/// A frame read as protocol text.
#[derive(Clone, Debug, PartialEq, Eq)]
pub enum Event {
    /// The marker that ends the stream.
    Sentinel,
    /// The text of one event, ready for structured parsing.
    Payload(String),
}

/// What an [`Event`] holds, as plain values.
pub enum EventView {
    Sentinel,
    Payload(Seq<char>),
}

impl View for Event {
    type V = EventView;

    open spec fn view(&self) -> EventView {
        match self {
            Event::Sentinel => EventView::Sentinel,
            Event::Payload(text) => EventView::Payload(text@),
        }
    }
}

/// The prefix that opens a frame: `data:`.
pub open spec fn data_prefix() -> Seq<char> {
    seq!['d', 'a', 't', 'a', ':']
}

/// The payload that ends the stream: `[DONE]`.
pub open spec fn sentinel_text() -> Seq<char> {
    seq!['[', 'D', 'O', 'N', 'E', ']']
}

/// Whether `c` has the Unicode property `White_Space`.
pub open spec fn is_whitespace(c: char) -> bool {
    let code = c as u32;
    ||| 0x09 <= code <= 0x0D
    ||| code == 0x20
    ||| code == 0x85
    ||| code == 0xA0
    ||| code == 0x1680
    ||| 0x2000 <= code <= 0x200A
    ||| code == 0x2028
    ||| code == 0x2029
    ||| code == 0x202F
    ||| code == 0x205F
    ||| code == 0x3000
}

/// `text` without the copies of `prefix` that it begins with.
pub open spec fn strip_prefixes(text: Seq<char>, prefix: Seq<char>) -> Seq<char>
    decreases text.len(),
{
    if prefix.len() > 0 && prefix.is_prefix_of(text) {
        strip_prefixes(text.skip(prefix.len() as int), prefix)
    } else {
        text
    }
}

/// `text` without the whitespace that it begins with.
pub open spec fn trim_start(text: Seq<char>) -> Seq<char>
    decreases text.len(),
{
    if text.len() > 0 && is_whitespace(text.first()) {
        trim_start(text.drop_first())
    } else {
        text
    }
}

/// `text` without the whitespace that it ends with.
pub open spec fn trim_end(text: Seq<char>) -> Seq<char>
    decreases text.len(),
{
    if text.len() > 0 && is_whitespace(text.last()) {
        trim_end(text.drop_last())
    } else {
        text
    }
}

/// `text` without the whitespace around it.
pub open spec fn trim(text: Seq<char>) -> Seq<char> {
    trim_end(trim_start(text))
}

/// The payload of a frame's text: the text without its `data:` prefix and
/// without the whitespace around what follows.
pub open spec fn payload_text(text: Seq<char>) -> Seq<char> {
    trim(strip_prefixes(text, data_prefix()))
}

/// The event that a frame's text stands for.
pub open spec fn classify_spec(text: Seq<char>) -> EventView {
    if payload_text(text) == sentinel_text() {
        EventView::Sentinel
    } else {
        EventView::Payload(payload_text(text))
    }
}

/// The event that a frame's bytes stand for, or the error of bytes that
/// are no UTF-8 text.
pub open spec fn extract_spec(frame: Seq<u8>) -> Result<EventView, StreamErrorView> {
    if valid_utf8(frame) {
        Ok(classify_spec(decode_utf8(frame)))
    } else {
        Err(StreamErrorView::Utf8DecodeError)
    }
}

/// What `trim_start` leaves does not begin with whitespace.
pub proof fn lemma_trim_start_tight(text: Seq<char>)
    ensures
        trim_start(text).len() > 0 ==> !is_whitespace(trim_start(text).first()),
        trim_start(text).len() <= text.len(),
    decreases text.len(),
{
    if text.len() > 0 && is_whitespace(text.first()) {
        lemma_trim_start_tight(text.drop_first());
    }
}

/// What `trim_end` leaves does not end with whitespace, and begins as the
/// text did.
pub proof fn lemma_trim_end_tight(text: Seq<char>)
    ensures
        trim_end(text).len() > 0 ==> !is_whitespace(trim_end(text).last()) && trim_end(
            text,
        ).first() == text.first(),
    decreases text.len(),
{
    if text.len() > 0 && is_whitespace(text.last()) {
        lemma_trim_end_tight(text.drop_last());
    }
}

/// A payload neither begins nor ends with whitespace.
pub proof fn lemma_payload_is_trimmed(text: Seq<char>)
    ensures
        payload_text(text).len() > 0 ==> !is_whitespace(payload_text(text).first())
            && !is_whitespace(payload_text(text).last()),
{
    let body = strip_prefixes(text, data_prefix());
    lemma_trim_start_tight(body);
    lemma_trim_end_tight(trim_start(body));
}

/// Calls `std::str::from_utf8`: the bytes as text where they are valid
/// UTF-8, and nothing where they are not. The text is made of the very
/// bytes that were handed in.
#[verifier::external_body]
fn utf8_text(bytes: &[u8]) -> (text: Option<&str>)
    ensures
        text is Some <==> valid_utf8(bytes@),
        text matches Some(t) ==> t.spec_bytes() == bytes@,
{
    match std::str::from_utf8(bytes) {
        Ok(text) => Some(text),
        Err(_) => None,
    }
}

/// Whether `c` has the Unicode property `White_Space`.
pub fn whitespace(c: char) -> (white: bool)
    ensures
        white == is_whitespace(c),
{
    let code: u32 = c as u32;
    (0x09 <= code && code <= 0x0D) || code == 0x20 || code == 0x85 || code == 0xA0 || code
        == 0x1680 || (0x2000 <= code && code <= 0x200A) || code == 0x2028 || code == 0x2029
        || code == 0x202F || code == 0x205F || code == 0x3000
}

/// The characters of `text`, one by one.
fn chars_of(text: &str) -> (out: Vec<char>)
    ensures
        out@ == text@,
{
    let mut out: Vec<char> = Vec::new();
    for c in iter: text.chars()
        invariant
            iter.seq() == text@,
            out@.len() == iter.index(),
            forall|j: int| 0 <= j < out@.len() ==> out@[j] == iter.seq()[j],
    {
        out.push(c);
    }
    assert(out@ =~= text@);
    out
}

/// Whether the characters from `from` on begin with `data:`.
fn prefix_at(chars: &Vec<char>, from: usize) -> (found: bool)
    requires
        from <= chars@.len(),
    ensures
        found == data_prefix().is_prefix_of(chars@.skip(from as int)),
{
    let n = chars.len();
    let ghost rest = chars@.skip(from as int);
    let ghost goal = data_prefix();
    assert(goal.len() == 5 && goal[0] == 'd' && goal[1] == 'a' && goal[2] == 't' && goal[3] == 'a'
        && goal[4] == ':');
    if n - from < 5 {
        false
    } else {
        let found = chars[from] == 'd' && chars[from + 1] == 'a' && chars[from + 2] == 't'
            && chars[from + 3] == 'a' && chars[from + 4] == ':';
        proof {
            let head = rest.subrange(0, 5);
            assert(head[0] == rest[0] && head[1] == rest[1] && head[2] == rest[2] && head[3]
                == rest[3] && head[4] == rest[4]);
            if found {
                assert(data_prefix() =~= head);
            }
        }
        found
    }
}

/// Whether the characters from `from` up to `to` spell `[DONE]`.
fn sentinel_at(chars: &Vec<char>, from: usize, to: usize) -> (found: bool)
    requires
        from <= to <= chars@.len(),
    ensures
        found == (chars@.subrange(from as int, to as int) == sentinel_text()),
{
    let ghost span = chars@.subrange(from as int, to as int);
    let ghost goal = sentinel_text();
    assert(goal.len() == 6 && goal[0] == '[' && goal[1] == 'D' && goal[2] == 'O' && goal[3] == 'N'
        && goal[4] == 'E' && goal[5] == ']');
    if to - from != 6 {
        false
    } else {
        let found = chars[from] == '[' && chars[from + 1] == 'D' && chars[from + 2] == 'O'
            && chars[from + 3] == 'N' && chars[from + 4] == 'E' && chars[from + 5] == ']';
        proof {
            assert(span[0] == chars@[from as int] && span[1] == chars@[from + 1] && span[2]
                == chars@[from + 2] && span[3] == chars@[from + 3] && span[4] == chars@[from
                + 4] && span[5] == chars@[from + 5]);
            if found {
                assert(span =~= sentinel_text());
            }
        }
        found
    }
}

/// Reads a frame's text: strips the `data:` prefix and the whitespace
/// around what follows, and tells the sentinel from a payload.
pub fn classify(text: &str) -> (event: Event)
    ensures
        event@ == classify_spec(text@),
{
    let chars = chars_of(text);
    let n = chars.len();
    let ghost all = text@;
    let mut start: usize = 0;
    assert(all.skip(0) =~= all);
    while prefix_at(&chars, start)
        invariant
            chars@ == all,
            n == all.len(),
            start <= n,
            strip_prefixes(all, data_prefix()) == strip_prefixes(
                all.skip(start as int),
                data_prefix(),
            ),
        decreases n - start,
    {
        assert(all.skip(start as int).skip(5) =~= all.skip(start + 5));
        start += 5;
    }
    let ghost body = all.skip(start as int);
    let mut lo: usize = start;
    while lo < n && whitespace(chars[lo])
        invariant
            chars@ == all,
            n == all.len(),
            start <= lo <= n,
            trim_start(body) == trim_start(all.skip(lo as int)),
        decreases n - lo,
    {
        assert(all.skip(lo as int).drop_first() =~= all.skip(lo + 1));
        lo += 1;
    }
    let ghost inner = all.skip(lo as int);
    let mut hi: usize = n;
    assert(all.subrange(lo as int, n as int) =~= inner);
    while hi > lo && whitespace(chars[hi - 1])
        invariant
            chars@ == all,
            n == all.len(),
            lo <= hi <= n,
            trim_end(inner) == trim_end(all.subrange(lo as int, hi as int)),
        decreases hi,
    {
        assert(all.subrange(lo as int, hi as int).drop_last() =~= all.subrange(
            lo as int,
            hi - 1,
        ));
        hi -= 1;
    }
    assert(payload_text(all) == all.subrange(lo as int, hi as int));
    if sentinel_at(&chars, lo, hi) {
        Event::Sentinel
    } else {
        Event::Payload(text.substring_char(lo, hi).to_owned())
    }
}

/// What the outcome of an extraction holds, as plain values.
pub open spec fn outcome_view(outcome: Result<Event, StreamError>) -> Result<
    EventView,
    StreamErrorView,
> {
    match outcome {
        Ok(event) => Ok(event@),
        Err(error) => Err(error@),
    }
}

/// Reads a frame: its bytes as UTF-8 text, then the text as an event.
/// Bytes that are no UTF-8 give `Utf8DecodeError`; no lossy decoding is
/// tried.
pub fn extract(frame: &[u8]) -> (outcome: Result<Event, StreamError>)
    ensures
        outcome_view(outcome) == extract_spec(frame@),
{
    match utf8_text(frame) {
        Some(text) => {
            proof {
                encode_utf8_decode_utf8(text@);
            }
            Ok(classify(text))
        },
        None => Err(StreamError::Utf8DecodeError),
    }
}

} // verus!
