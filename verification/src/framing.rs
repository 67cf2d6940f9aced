//! Frame accumulation: from byte fragments to delimiter-bounded frames.

use vstd::prelude::*;
use vstd::slice::{slice_subrange, slice_to_vec};

verus! {

/// Whether `delimiter` occurs in `buffer` at byte offset `at`.
pub open spec fn matches_at(buffer: Seq<u8>, delimiter: Seq<u8>, at: int) -> bool {
    &&& 0 <= at
    &&& at + delimiter.len() <= buffer.len()
    &&& buffer.subrange(at, at + delimiter.len()) == delimiter
}

/// No occurrence of `delimiter` lies within `buffer`.
pub open spec fn delimiter_free(buffer: Seq<u8>, delimiter: Seq<u8>) -> bool {
    forall|at: int| !matches_at(buffer, delimiter, at)
}

/// Offset of the leftmost occurrence of `delimiter` at or after `from`.
pub open spec fn find_from(buffer: Seq<u8>, delimiter: Seq<u8>, from: int) -> Option<int>
    decreases buffer.len() + 1 - from,
{
    if from < 0 || from + delimiter.len() > buffer.len() {
        None
    } else if matches_at(buffer, delimiter, from) {
        Some(from)
    } else {
        find_from(buffer, delimiter, from + 1)
    }
}

/// Offset of the leftmost occurrence of `delimiter` in `buffer`.
pub open spec fn first_match(buffer: Seq<u8>, delimiter: Seq<u8>) -> Option<int> {
    find_from(buffer, delimiter, 0)
}

/// The first frame of `buffer` and the bytes that follow its delimiter, if
/// the buffer holds a complete frame.
pub open spec fn cut(buffer: Seq<u8>, delimiter: Seq<u8>) -> Option<(Seq<u8>, Seq<u8>)> {
    match first_match(buffer, delimiter) {
        Some(at) => Some(
            (
                buffer.subrange(0, at),
                buffer.subrange(at + delimiter.len(), buffer.len() as int),
            ),
        ),
        None => None,
    }
}

/// The complete frames of `buffer`, in order, delimiters excluded.
///
/// The length test only serves termination: what follows a non-empty
/// delimiter is always shorter than the buffer.
pub open spec fn frames(buffer: Seq<u8>, delimiter: Seq<u8>) -> Seq<Seq<u8>>
    decreases buffer.len(),
{
    match cut(buffer, delimiter) {
        Some((frame, rest)) if rest.len() < buffer.len() => seq![frame] + frames(rest, delimiter),
        _ => Seq::empty(),
    }
}

/// The bytes of `buffer` that follow its last complete frame.
pub open spec fn remainder(buffer: Seq<u8>, delimiter: Seq<u8>) -> Seq<u8>
    decreases buffer.len(),
{
    match cut(buffer, delimiter) {
        Some((frame, rest)) if rest.len() < buffer.len() => remainder(rest, delimiter),
        _ => buffer,
    }
}

/// The frames held by a vector of byte vectors.
pub open spec fn frames_view(frames: Vec<Vec<u8>>) -> Seq<Seq<u8>> {
    Seq::new(frames@.len(), |i: int| frames@[i]@)
}

/// `find_from` returns the leftmost match at or after `from`, and `None`
/// only where there is none.
pub proof fn lemma_find_from(buffer: Seq<u8>, delimiter: Seq<u8>, from: int)
    requires
        0 <= from,
    ensures
        match find_from(buffer, delimiter, from) {
            Some(at) => {
                &&& from <= at
                &&& matches_at(buffer, delimiter, at)
                &&& forall|j: int| from <= j < at ==> !matches_at(buffer, delimiter, j)
            },
            None => forall|j: int| from <= j ==> !matches_at(buffer, delimiter, j),
        },
    decreases buffer.len() + 1 - from,
{
    if from + delimiter.len() > buffer.len() {
    } else if matches_at(buffer, delimiter, from) {
    } else {
        lemma_find_from(buffer, delimiter, from + 1);
    }
}

/// A match that no match precedes is the first match.
pub proof fn lemma_first_match_is(buffer: Seq<u8>, delimiter: Seq<u8>, at: int)
    requires
        matches_at(buffer, delimiter, at),
        forall|j: int| 0 <= j < at ==> !matches_at(buffer, delimiter, j),
    ensures
        first_match(buffer, delimiter) == Some(at),
{
    lemma_find_from(buffer, delimiter, 0);
}

/// A buffer without a match has no frames and is its own remainder.
pub proof fn lemma_delimiter_free(buffer: Seq<u8>, delimiter: Seq<u8>)
    ensures
        delimiter_free(buffer, delimiter) <==> first_match(buffer, delimiter) is None,
        delimiter_free(buffer, delimiter) ==> frames(buffer, delimiter) == Seq::<Seq<u8>>::empty()
            && remainder(buffer, delimiter) == buffer,
{
    lemma_find_from(buffer, delimiter, 0);
}

/// What is left behind the last complete frame holds no delimiter.
pub proof fn lemma_remainder_delimiter_free(buffer: Seq<u8>, delimiter: Seq<u8>)
    requires
        delimiter.len() > 0,
    ensures
        delimiter_free(remainder(buffer, delimiter), delimiter),
    decreases buffer.len(),
{
    lemma_find_from(buffer, delimiter, 0);
    match cut(buffer, delimiter) {
        Some((frame, rest)) => {
            lemma_remainder_delimiter_free(rest, delimiter);
        },
        None => {},
    }
}

/// Appending bytes leaves the frames already complete as they are, and the
/// rest is framed as if the appended bytes followed the remainder.
pub proof fn lemma_frames_append(buffer: Seq<u8>, more: Seq<u8>, delimiter: Seq<u8>)
    requires
        delimiter.len() > 0,
    ensures
        frames(buffer + more, delimiter) == frames(buffer, delimiter) + frames(
            remainder(buffer, delimiter) + more,
            delimiter,
        ),
        remainder(buffer + more, delimiter) == remainder(
            remainder(buffer, delimiter) + more,
            delimiter,
        ),
    decreases buffer.len(),
{
    lemma_find_from(buffer, delimiter, 0);
    match first_match(buffer, delimiter) {
        Some(at) => {
            let whole = buffer + more;
            let rest = buffer.subrange(at + delimiter.len(), buffer.len() as int);
            assert(whole.subrange(at, at + delimiter.len()) =~= buffer.subrange(
                at,
                at + delimiter.len(),
            ));
            assert forall|j: int| 0 <= j < at implies !matches_at(whole, delimiter, j) by {
                assert(!matches_at(buffer, delimiter, j));
                assert(whole.subrange(j, j + delimiter.len()) =~= buffer.subrange(
                    j,
                    j + delimiter.len(),
                ));
            }
            lemma_first_match_is(whole, delimiter, at);
            assert(whole.subrange(0, at) =~= buffer.subrange(0, at));
            assert(whole.subrange(at + delimiter.len(), whole.len() as int) =~= rest + more);
            lemma_frames_append(rest, more, delimiter);
            assert(seq![buffer.subrange(0, at)] + (frames(rest, delimiter) + frames(
                remainder(rest, delimiter) + more,
                delimiter,
            )) =~= (seq![buffer.subrange(0, at)] + frames(rest, delimiter)) + frames(
                remainder(rest, delimiter) + more,
                delimiter,
            ));
        },
        None => {
            assert(frames(buffer, delimiter) + frames(buffer + more, delimiter) =~= frames(
                buffer + more,
                delimiter,
            ));
        },
    }
}

/// The bytes that frames make up when each is followed by the delimiter.
pub open spec fn joined(frames: Seq<Seq<u8>>, delimiter: Seq<u8>) -> Seq<u8>
    decreases frames.len(),
{
    if frames.len() == 0 {
        Seq::empty()
    } else {
        frames.first() + delimiter + joined(frames.drop_first(), delimiter)
    }
}

/// No byte is lost or made up: the frames of a buffer, each followed by
/// the delimiter, and then the remainder are the buffer again.
pub proof fn lemma_frames_rejoin(buffer: Seq<u8>, delimiter: Seq<u8>)
    requires
        delimiter.len() > 0,
    ensures
        joined(frames(buffer, delimiter), delimiter) + remainder(buffer, delimiter) == buffer,
    decreases buffer.len(),
{
    lemma_find_from(buffer, delimiter, 0);
    match first_match(buffer, delimiter) {
        Some(at) => {
            let frame = buffer.subrange(0, at);
            let rest = buffer.subrange(at + delimiter.len(), buffer.len() as int);
            let later = frames(rest, delimiter);
            lemma_frames_rejoin(rest, delimiter);
            assert((seq![frame] + later).first() == frame);
            assert((seq![frame] + later).drop_first() =~= later);
            assert(buffer.subrange(at, at + delimiter.len()) == delimiter);
            assert(frame + delimiter + rest =~= buffer);
            assert((frame + delimiter + joined(later, delimiter)) + remainder(rest, delimiter)
                =~= frame + delimiter + (joined(later, delimiter) + remainder(rest, delimiter)));
        },
        None => {
            assert(joined(frames(buffer, delimiter), delimiter) + buffer =~= buffer);
        },
    }
}

/// No frame holds the delimiter: each ends at the first delimiter that
/// follows its beginning.
pub proof fn lemma_frames_delimiter_free(buffer: Seq<u8>, delimiter: Seq<u8>, index: int)
    requires
        delimiter.len() > 0,
        0 <= index < frames(buffer, delimiter).len(),
    ensures
        delimiter_free(frames(buffer, delimiter)[index], delimiter),
    decreases buffer.len(),
{
    lemma_find_from(buffer, delimiter, 0);
    match first_match(buffer, delimiter) {
        Some(at) => {
            let frame = buffer.subrange(0, at);
            let rest = buffer.subrange(at + delimiter.len(), buffer.len() as int);
            if index == 0 {
                assert forall|j: int| !matches_at(frame, delimiter, j) by {
                    if matches_at(frame, delimiter, j) {
                        assert(frame.subrange(j, j + delimiter.len()) =~= buffer.subrange(
                            j,
                            j + delimiter.len(),
                        ));
                        assert(matches_at(buffer, delimiter, j));
                    }
                }
            } else {
                lemma_frames_delimiter_free(rest, delimiter, index - 1);
            }
        },
        None => {},
    }
}

/// The two conventions by which upstream services end a frame.
#[derive(Clone, Copy, Debug, PartialEq, Eq, Structural)]
pub enum Delimiter {
    /// Two line feeds.
    Newlines,
    /// The four characters of two escaped line feeds: backslash, `n`,
    /// backslash, `n`.
    EscapedNewlines,
}

impl Delimiter {
    /// The bytes that end a frame under this convention.
    pub open spec fn spec_bytes(self) -> Seq<u8> {
        match self {
            Delimiter::Newlines => seq![10u8, 10u8],
            Delimiter::EscapedNewlines => seq![92u8, 110u8, 92u8, 110u8],
        }
    }

    /// The bytes that end a frame under this convention.
    pub fn bytes(self) -> (out: Vec<u8>)
        ensures
            out@ == self.spec_bytes(),
            out@.len() > 0,
    {
        match self {
            Delimiter::Newlines => {
                let out = vec![10u8, 10u8];
                assert(out@ =~= self.spec_bytes());
                out
            },
            Delimiter::EscapedNewlines => {
                let out = vec![92u8, 110u8, 92u8, 110u8];
                assert(out@ =~= self.spec_bytes());
                out
            },
        }
    }
}

/// Buffers partial reads and emits the frames that are complete.
///
/// Between two calls the buffer holds no delimiter: every complete frame
/// has been emitted, and at most one unfinished frame is kept.
pub struct FrameAccumulator {
    buffer: Vec<u8>,
    delimiter: Vec<u8>,
}

/// Whether the delimiter stands in `buffer` at offset `at`.
fn window_matches(buffer: &Vec<u8>, at: usize, delimiter: &Vec<u8>) -> (hit: bool)
    requires
        at + delimiter@.len() <= buffer@.len(),
    ensures
        hit == matches_at(buffer@, delimiter@, at as int),
{
    let width = delimiter.len();
    let total = buffer.len();
    let mut k: usize = 0;
    while k < width
        invariant
            width == delimiter@.len(),
            total == buffer@.len(),
            at + width <= total,
            k <= width,
            forall|j: int| 0 <= j < k ==> buffer@[at + j] == delimiter@[j],
        decreases width - k,
    {
        if buffer[at + k] != delimiter[k] {
            assert(buffer@.subrange(at as int, at + width)[k as int] == buffer@[at + k]);
            return false;
        }
        k += 1;
    }
    assert(buffer@.subrange(at as int, at + width) =~= delimiter@);
    true
}

impl FrameAccumulator {
    /// The bytes received and not yet emitted.
    pub closed spec fn buffered(&self) -> Seq<u8> {
        self.buffer@
    }

    /// The delimiter that ends a frame.
    pub closed spec fn delimiter(&self) -> Seq<u8> {
        self.delimiter@
    }

    /// The delimiter is not empty and does not occur in the buffer.
    pub open spec fn wf(&self) -> bool {
        &&& self.delimiter().len() > 0
        &&& delimiter_free(self.buffered(), self.delimiter())
    }

    /// An accumulator with an empty buffer for the given delimiter, or
    /// `None` for an empty delimiter, which could end no frame.
    pub fn new(delimiter: &[u8]) -> (made: Option<FrameAccumulator>)
        ensures
            made is Some <==> delimiter@.len() > 0,
            made matches Some(acc) ==> {
                &&& acc.wf()
                &&& acc.delimiter() == delimiter@
                &&& acc.buffered() == Seq::<u8>::empty()
            },
    {
        if delimiter.len() == 0 {
            None
        } else {
            Some(FrameAccumulator { buffer: Vec::new(), delimiter: slice_to_vec(delimiter) })
        }
    }

    /// An accumulator with an empty buffer for one of the two conventions.
    pub fn with_convention(convention: Delimiter) -> (acc: FrameAccumulator)
        ensures
            acc.wf(),
            acc.delimiter() == convention.spec_bytes(),
            acc.buffered() == Seq::<u8>::empty(),
    {
        FrameAccumulator { buffer: Vec::new(), delimiter: convention.bytes() }
    }

    /// Number of bytes kept for the next fragment.
    pub fn buffered_len(&self) -> (n: usize)
        ensures
            n == self.buffered().len(),
    {
        self.buffer.len()
    }

    /// Appends `fragment` to the buffer and emits every frame that is now
    /// complete, leftmost first; what follows the last delimiter stays
    /// buffered.
    pub fn feed(&mut self, fragment: &[u8]) -> (emitted: Vec<Vec<u8>>)
        requires
            old(self).wf(),
        ensures
            final(self).wf(),
            final(self).delimiter() == old(self).delimiter(),
            frames_view(emitted) == frames(
                old(self).buffered() + fragment@,
                old(self).delimiter(),
            ),
            final(self).buffered() == remainder(
                old(self).buffered() + fragment@,
                old(self).delimiter(),
            ),
    {
        let held = self.buffer.len();
        self.buffer.extend_from_slice(fragment);
        let ghost whole = self.buffer@;
        let ghost delim = self.delimiter@;
        assert(whole =~= old(self).buffer@ + fragment@);
        let total = self.buffer.len();
        let width = self.delimiter.len();
        let mut emitted: Vec<Vec<u8>> = Vec::new();
        let mut start: usize = 0;
        // No delimiter lies within the bytes held before, so the first one
        // ends behind them.
        let mut at: usize = if held >= width {
            held - (width - 1)
        } else {
            0
        };
        assert(whole.subrange(0, total as int) =~= whole);
        assert forall|j: int| 0 <= j < at implies !matches_at(whole, delim, j) by {
            assert(whole.subrange(j, j + width) =~= old(self).buffer@.subrange(j, j + width));
            assert(!matches_at(old(self).buffer@, delim, j));
        }
        while total - at >= width
            invariant
                self.buffer@ == whole,
                self.delimiter@ == delim,
                total == whole.len(),
                width == delim.len(),
                width > 0,
                start <= at <= total,
                frames(whole, delim) == frames_view(emitted) + frames(
                    whole.subrange(start as int, total as int),
                    delim,
                ),
                remainder(whole, delim) == remainder(
                    whole.subrange(start as int, total as int),
                    delim,
                ),
                forall|j: int|
                    0 <= j < at - start ==> !matches_at(
                        whole.subrange(start as int, total as int),
                        delim,
                        j,
                    ),
            decreases total - at,
        {
            let ghost tail = whole.subrange(start as int, total as int);
            proof {
                assert(tail.subrange(at - start, at - start + width) =~= whole.subrange(
                    at as int,
                    at + width,
                ));
            }
            if window_matches(&self.buffer, at, &self.delimiter) {
                let frame = slice_to_vec(slice_subrange(self.buffer.as_slice(), start, at));
                proof {
                    lemma_first_match_is(tail, delim, at - start);
                    let rest = tail.subrange(at - start + width, tail.len() as int);
                    assert(rest =~= whole.subrange(at + width, total as int));
                    assert(tail.subrange(0, at - start) =~= frame@);
                    assert(frames(tail, delim) == seq![frame@] + frames(rest, delim));
                    assert(frames_view(emitted).push(frame@) + frames(rest, delim) =~= frames_view(
                        emitted,
                    ) + (seq![frame@] + frames(rest, delim)));
                }
                let ghost before = frames_view(emitted);
                emitted.push(frame);
                assert(frames_view(emitted) =~= before.push(frame@));
                start = at + width;
                at = start;
            } else {
                at += 1;
            }
        }
        proof {
            let tail = whole.subrange(start as int, total as int);
            assert forall|j: int| !matches_at(tail, delim, j) by {}
            lemma_delimiter_free(tail, delim);
            assert(frames_view(emitted) + Seq::<Seq<u8>>::empty() =~= frames_view(emitted));
        }
        if start > 0 {
            let kept = self.buffer.split_off(start);
            self.buffer = kept;
        }
        assert(self.buffer@ =~= whole.subrange(start as int, total as int));
        emitted
    }

    /// Ends the accumulation: hands out the bytes of a frame whose
    /// delimiter never came, if there are any, and leaves the buffer empty.
    pub fn finish(&mut self) -> (unfinished: Option<Vec<u8>>)
        requires
            old(self).wf(),
        ensures
            final(self).wf(),
            final(self).delimiter() == old(self).delimiter(),
            final(self).buffered() == Seq::<u8>::empty(),
            unfinished is Some <==> old(self).buffered().len() > 0,
            unfinished matches Some(bytes) ==> bytes@ == old(self).buffered(),
    {
        let mut taken: Vec<u8> = Vec::new();
        std::mem::swap(&mut self.buffer, &mut taken);
        assert forall|at: int| !matches_at(self.buffer@, self.delimiter@, at) by {}
        if taken.len() == 0 {
            None
        } else {
            Some(taken)
        }
    }
}

} // verus!
