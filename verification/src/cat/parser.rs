//! Incremental semicolon-terminated CAT response decoding.
use vstd::prelude::*;

use crate::text::{ascii_string, ascii_view};

verus! {

/// Largest accepted single response, in bytes, including its semicolon.
pub const MAX_RESPONSE_BYTES: usize = 128;

/// Incremental decoder failure.
#[derive(Clone, Copy, Debug, PartialEq, Eq)]
pub enum DecodeError {
    /// A byte was non-ASCII or an ASCII control character.
    NonAscii,
    /// One response exceeded the bounded parser capacity.
    ResponseTooLong,
    /// Input ended with an incomplete response.
    Unterminated,
}

impl DecodeError {
    /// Stable diagnostic text.
    pub open spec fn spec_message(self) -> &'static str {
        match self {
            DecodeError::NonAscii => "response contains non-ASCII/control bytes",
            DecodeError::ResponseTooLong => "response exceeds 128 bytes",
            DecodeError::Unterminated => "response is missing its terminating semicolon",
        }
    }

    /// Stable diagnostic text.
    pub fn message(self) -> (text: &'static str)
        ensures
            text == self.spec_message(),
    {
        match self {
            DecodeError::NonAscii => "response contains non-ASCII/control bytes",
            DecodeError::ResponseTooLong => "response exceeds 128 bytes",
            DecodeError::Unterminated => "response is missing its terminating semicolon",
        }
    }
}

/// A byte that may appear in a response: printable ASCII.
pub open spec fn is_response_byte(byte: u8) -> bool {
    0x20 <= byte < 0x7f
}

/// Decoder progress: the first error, if any; the completed responses; the
/// bytes still waiting for a semicolon.
pub type DecodeState = (Option<DecodeError>, Seq<Seq<u8>>, Seq<u8>);

/// Feed one byte to the decoder. After an error the state no longer changes.
pub open spec fn decode_byte(state: DecodeState, byte: u8) -> DecodeState {
    let (error, frames, pending) = state;
    if error is Some {
        state
    } else if !is_response_byte(byte) {
        (Some(DecodeError::NonAscii), frames, pending)
    } else if pending.len() + 1 > MAX_RESPONSE_BYTES {
        (Some(DecodeError::ResponseTooLong), frames, pending.push(byte))
    } else if byte == 0x3b {
        (None, frames.push(pending.push(byte)), Seq::empty())
    } else {
        (None, frames, pending.push(byte))
    }
}

/// Feed a byte sequence to the decoder, in order.
pub open spec fn decode_bytes(state: DecodeState, bytes: Seq<u8>) -> DecodeState
    decreases bytes.len(),
{
    if bytes.len() == 0 {
        state
    } else {
        decode_byte(decode_bytes(state, bytes.drop_last()), bytes.last())
    }
}

/// A well-formed complete response: nonempty printable ASCII, at most
/// `MAX_RESPONSE_BYTES` long, whose only semicolon is the last byte.
pub open spec fn is_complete_response(frame: Seq<u8>) -> bool {
    &&& 0 < frame.len() <= MAX_RESPONSE_BYTES
    &&& forall|i: int| 0 <= i < frame.len() ==> is_response_byte(#[trigger] frame[i])
    &&& frame.last() == 0x3b
    &&& forall|i: int| 0 <= i < frame.len() - 1 ==> #[trigger] frame[i] != 0x3b
}

/// Pending bytes are printable ASCII, and hold no semicolon unless they already
/// exceed the response bound (after which no response can complete).
pub open spec fn is_pending_prefix(pending: Seq<u8>) -> bool {
    &&& forall|i: int| 0 <= i < pending.len() ==> is_response_byte(#[trigger] pending[i])
    &&& pending.len() <= MAX_RESPONSE_BYTES ==> forall|i: int|
        0 <= i < pending.len() ==> #[trigger] pending[i] != 0x3b
}

/// Every completed response in a state is well formed, and the pending bytes
/// are a possible prefix of one.
pub open spec fn decode_state_wf(state: DecodeState) -> bool {
    &&& forall|i: int| 0 <= i < state.1.len() ==> is_complete_response(#[trigger] state.1[i])
    &&& is_pending_prefix(state.2)
}

/// Once an error is recorded, more bytes change nothing.
pub proof fn lemma_decode_error_sticky(state: DecodeState, bytes: Seq<u8>)
    requires
        state.0 is Some,
    ensures
        decode_bytes(state, bytes) == state,
    decreases bytes.len(),
{
    if bytes.len() > 0 {
        lemma_decode_error_sticky(state, bytes.drop_last());
    }
}

/// Decoding `a + b` is decoding `a` and then `b`.
pub proof fn lemma_decode_concat(state: DecodeState, a: Seq<u8>, b: Seq<u8>)
    ensures
        decode_bytes(state, a + b) == decode_bytes(decode_bytes(state, a), b),
    decreases b.len(),
{
    if b.len() == 0 {
        assert(a + b =~= a);
    } else {
        lemma_decode_concat(state, a, b.drop_last());
        assert((a + b).drop_last() =~= a + b.drop_last());
        assert((a + b).last() == b.last());
    }
}

/// Responses already completed are kept in front of those completed later.
pub proof fn lemma_decode_keeps_frames(frames: Seq<Seq<u8>>, pending: Seq<u8>, bytes: Seq<u8>)
    ensures
        ({
            let fresh = decode_bytes((None, Seq::empty(), pending), bytes);
            decode_bytes((None, frames, pending), bytes) == (fresh.0, frames + fresh.1, fresh.2)
        }),
    decreases bytes.len(),
{
    if bytes.len() == 0 {
        assert(frames + Seq::<Seq<u8>>::empty() =~= frames);
    } else {
        lemma_decode_keeps_frames(frames, pending, bytes.drop_last());
        let fresh = decode_bytes((None, Seq::empty(), pending), bytes.drop_last());
        if fresh.0 is None && is_response_byte(bytes.last()) && fresh.2.len() + 1
            <= MAX_RESPONSE_BYTES && bytes.last() == 0x3b {
            assert(frames + fresh.1.push(fresh.2.push(bytes.last())) =~= (frames + fresh.1).push(
                fresh.2.push(bytes.last()),
            ));
        }
    }
}

/// Pushing bytes in two chunks is pushing them at once: starting from the same
/// pending bytes, the responses that the two pushes complete, in order, are
/// those that one push of both chunks completes, and the bytes left pending are
/// the same; an error in the first chunk is the error of the whole.
pub proof fn lemma_push_split(pending: Seq<u8>, a: Seq<u8>, b: Seq<u8>)
    ensures
        ({
            let whole = decode_bytes((None, Seq::empty(), pending), a + b);
            let first = decode_bytes((None, Seq::empty(), pending), a);
            let second = decode_bytes((None, Seq::empty(), first.2), b);
            &&& first.0 is Some ==> whole == first
            &&& first.0 is None ==> whole == (second.0, first.1 + second.1, second.2)
        }),
{
    let first = decode_bytes((None, Seq::empty(), pending), a);
    lemma_decode_concat((None, Seq::empty(), pending), a, b);
    if first.0 is Some {
        lemma_decode_error_sticky(first, b);
    } else {
        lemma_decode_keeps_frames(first.1, first.2, b);
    }
}

/// Decoding preserves well-formedness.
pub proof fn lemma_decode_wf(state: DecodeState, bytes: Seq<u8>)
    requires
        decode_state_wf(state),
    ensures
        decode_state_wf(decode_bytes(state, bytes)),
    decreases bytes.len(),
{
    if bytes.len() > 0 {
        lemma_decode_wf(state, bytes.drop_last());
        let before = decode_bytes(state, bytes.drop_last());
        let byte = bytes.last();
        if before.0 is None && is_response_byte(byte) {
            let grown = before.2.push(byte);
            assert forall|i: int| 0 <= i < grown.len() implies is_response_byte(#[trigger] grown[i]) by {
                if i < before.2.len() {
                    assert(grown[i] == before.2[i]);
                }
            }
            if before.2.len() + 1 <= MAX_RESPONSE_BYTES {
                if byte == 0x3b {
                    assert(is_complete_response(grown)) by {
                        assert forall|i: int| 0 <= i < grown.len() - 1 implies #[trigger] grown[i] != 0x3b by {
                            assert(grown[i] == before.2[i]);
                        }
                    }
                    let frames = before.1.push(grown);
                    assert forall|i: int| 0 <= i < frames.len() implies is_complete_response(#[trigger] frames[i]) by {
                        if i < before.1.len() {
                            assert(frames[i] == before.1[i]);
                        }
                    }
                } else {
                    assert forall|i: int| 0 <= i < grown.len() implies #[trigger] grown[i] != 0x3b by {
                        if i < before.2.len() {
                            assert(grown[i] == before.2[i]);
                        }
                    }
                }
            }
        }
    }
}

/// Incremental semicolon-terminated response decoder.
///
/// A decoder accepts partial reads and returns every complete response in order.
/// It does not decide whether a response was solicited; the CAT session applies
/// that transaction-level rule.
#[derive(Debug)]
pub struct FrameDecoder {
    pending: Vec<u8>,
}

impl View for FrameDecoder {
    type V = Seq<u8>;

    /// The bytes waiting for a semicolon.
    closed spec fn view(&self) -> Seq<u8> {
        self.pending@
    }
}

impl Clone for FrameDecoder {
    /// A decoder holding the same pending bytes.
    fn clone(&self) -> (copy: Self)
        ensures
            copy@ == self@,
    {
        proof {
            use_type_invariant(self);
        }
        FrameDecoder { pending: vstd::slice::slice_to_vec(self.pending.as_slice()) }
    }
}

impl Default for FrameDecoder {
    /// An empty decoder.
    fn default() -> (decoder: Self)
        ensures
            decoder@ == Seq::<u8>::empty(),
    {
        FrameDecoder::new()
    }
}

impl FrameDecoder {
    /// The pending bytes are always a possible prefix of a response.
    #[verifier::type_invariant]
    spec fn pending_ok(self) -> bool {
        is_pending_prefix(self.pending@)
    }

    /// Create an empty decoder.
    pub fn new() -> (decoder: Self)
        ensures
            decoder@ == Seq::<u8>::empty(),
            is_pending_prefix(decoder@),
    {
        FrameDecoder { pending: Vec::new() }
    }

    /// Add an incremental byte chunk and return the newly completed responses as
    /// bytes.
    pub fn push_bytes(&mut self, bytes: &[u8]) -> (result: Result<Vec<Vec<u8>>, DecodeError>)
        ensures
            is_pending_prefix(final(self)@),
            ({
                let state = decode_bytes((None, Seq::empty(), old(self)@), bytes@);
                &&& final(self)@ == state.2
                &&& match result {
                    Ok(frames) => state.0 is None && frames@.map_values(|frame: Vec<u8>| frame@)
                        == state.1,
                    Err(error) => state.0 == Some(error),
                }
            }),
    {
        proof {
            use_type_invariant(&*self);
        }
        let mut pending: Vec<u8> = Vec::new();
        core::mem::swap(&mut pending, &mut self.pending);
        let ghost start = pending@;
        proof {
            lemma_decode_wf((None, Seq::empty(), start), bytes@);
        }
        let mut completed: Vec<Vec<u8>> = Vec::new();
        let mut index: usize = 0;
        while index < bytes.len()
            invariant
                0 <= index <= bytes@.len(),
                start == old(self)@,
                self.pending@ == Seq::<u8>::empty(),
                decode_state_wf(decode_bytes((None, Seq::empty(), start), bytes@)),
                decode_bytes((None, Seq::empty(), start), bytes@.subrange(0, index as int)) == (
                    None::<DecodeError>,
                    completed@.map_values(|frame: Vec<u8>| frame@),
                    pending@,
                ),
            decreases bytes@.len() - index,
        {
            let byte = bytes[index];
            let ghost before = bytes@.subrange(0, index as int);
            let ghost after = bytes@.subrange(0, index as int + 1);
            assert(after.drop_last() =~= before);
            assert(after.last() == byte);
            proof {
                lemma_decode_concat((None, Seq::empty(), start), after, bytes@.subrange(index as int + 1, bytes@.len() as int));
                assert(after + bytes@.subrange(index as int + 1, bytes@.len() as int) =~= bytes@);
            }
            if !(0x20 <= byte && byte < 0x7f) {
                proof {
                    lemma_decode_error_sticky(decode_bytes((None, Seq::empty(), start), after), bytes@.subrange(index as int + 1, bytes@.len() as int));
                }
                self.pending = pending;
                return Err(DecodeError::NonAscii);
            }
            if pending.len() >= MAX_RESPONSE_BYTES {
                pending.push(byte);
                proof {
                    lemma_decode_error_sticky(decode_bytes((None, Seq::empty(), start), after), bytes@.subrange(index as int + 1, bytes@.len() as int));
                }
                self.pending = pending;
                return Err(DecodeError::ResponseTooLong);
            }
            if byte == 0x3b {
                let mut frame: Vec<u8> = Vec::new();
                core::mem::swap(&mut frame, &mut pending);
                frame.push(byte);
                let ghost old_views = completed@.map_values(|f: Vec<u8>| f@);
                completed.push(frame);
                assert(completed@.map_values(|f: Vec<u8>| f@) =~= old_views.push(frame@));
            } else {
                pending.push(byte);
            }
            index = index + 1;
        }
        assert(bytes@.subrange(0, bytes@.len() as int) =~= bytes@);
        self.pending = pending;
        Ok(completed)
    }

    /// Add an incremental byte chunk and return all newly completed responses.
    pub fn push(&mut self, bytes: &[u8]) -> (result: Result<Vec<String>, DecodeError>)
        ensures
            is_pending_prefix(final(self)@),
            ({
                let state = decode_bytes((None, Seq::empty(), old(self)@), bytes@);
                &&& final(self)@ == state.2
                &&& match result {
                    Ok(frames) => {
                        &&& state.0 is None
                        &&& frames@.len() == state.1.len()
                        &&& forall|i: int|
                            0 <= i < frames@.len() ==> #[trigger] frames@[i]@ == ascii_view(
                                state.1[i],
                            )
                    },
                    Err(error) => state.0 == Some(error),
                }
            }),
    {
        proof {
            use_type_invariant(&*self);
        }
        let ghost start = self@;
        proof {
            lemma_decode_wf((None, Seq::empty(), start), bytes@);
        }
        let frames = self.push_bytes(bytes)?;
        let ghost views = frames@.map_values(|frame: Vec<u8>| frame@);
        let mut texts: Vec<String> = Vec::new();
        let mut index: usize = 0;
        while index < frames.len()
            invariant
                0 <= index <= frames@.len(),
                views == frames@.map_values(|frame: Vec<u8>| frame@),
                forall|i: int| 0 <= i < views.len() ==> is_complete_response(#[trigger] views[i]),
                texts@.len() == index,
                forall|i: int| 0 <= i < index ==> #[trigger] texts@[i]@ == ascii_view(views[i]),
            decreases frames@.len() - index,
        {
            assert(views[index as int] == frames@[index as int]@);
            assert(is_complete_response(views[index as int]));
            texts.push(ascii_string(frames[index].as_slice()));
            index = index + 1;
        }
        Ok(texts)
    }

    /// Require that no unterminated response bytes remain.
    pub fn finish(&self) -> (result: Result<(), DecodeError>)
        ensures
            result is Ok <==> self@.len() == 0,
            result is Err ==> result == Err::<(), DecodeError>(DecodeError::Unterminated),
    {
        if self.pending.len() == 0 {
            Ok(())
        } else {
            Err(DecodeError::Unterminated)
        }
    }

    /// Number of bytes waiting for a semicolon.
    pub fn pending_len(&self) -> (count: usize)
        ensures
            count == self@.len(),
    {
        self.pending.len()
    }
}

} // verus!
