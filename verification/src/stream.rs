//! Frames out of a byte stream that arrives in pieces.
//!
//! A socket hands over whatever bytes it has, which may end in the middle of a
//! frame. [`FrameAssembler`] keeps the bytes that no whole frame has claimed
//! yet and decodes again when more arrive. What it gives out depends on the
//! stream alone, not on where the reads cut it: [`lemma_drain_split`].

use crate::bytes::append_bytes;
use crate::frame::{
    decode, lemma_decode_consumes, lemma_decode_encode, lemma_decode_stable, spec_decode,
    spec_encode, spec_length_limit, DecodeError, Frame, FrameView, ProtocolError,
};
use vstd::prelude::*;
use vstd::slice::slice_subrange;

verus! {

/// What a run of bytes comes to when every whole frame is taken off its front.
pub struct Drained {
    /// The frames, in the order of the stream.
    pub frames: Seq<FrameView>,
    /// The bytes from the first incomplete or malformed frame on.
    pub rest: Seq<u8>,
    /// Set where `rest` begins with a malformed header.
    pub error: Option<ProtocolError>,
}

/// Decodes frames off the front of `bytes` until one is incomplete or
/// malformed.
pub open spec fn spec_drain(bytes: Seq<u8>) -> Drained
    decreases bytes.len(),
{
    match spec_decode(bytes) {
        Ok((frame, used)) => {
            if 0 < used <= bytes.len() {
                let tail = spec_drain(bytes.skip(used as int));
                Drained { frames: seq![frame] + tail.frames, rest: tail.rest, error: tail.error }
            } else {
                Drained { frames: Seq::empty(), rest: bytes, error: None }
            }
        },
        Err(DecodeError::IncompleteData) => Drained {
            frames: Seq::empty(),
            rest: bytes,
            error: None,
        },
        Err(DecodeError::Protocol(e)) => Drained {
            frames: Seq::empty(),
            rest: bytes,
            error: Some(e),
        },
    }
}

/// The frames of `frames` as mathematical values.
pub open spec fn spec_frames(frames: Seq<Frame>) -> Seq<FrameView> {
    frames.map_values(|frame: Frame| frame@)
}

/// What one read brought: the frames that became whole, and the protocol
/// error that ended decoding, if one did.
#[derive(Debug)]
pub struct Decoded {
    pub frames: Vec<Frame>,
    pub error: Option<ProtocolError>,
}

/// The bytes of a stream that no whole frame has claimed yet.
#[derive(Debug)]
pub struct FrameAssembler {
    pending: Vec<u8>,
}

impl View for FrameAssembler {
    type V = Seq<u8>;

    closed spec fn view(&self) -> Seq<u8> {
        self.pending@
    }
}

impl FrameAssembler {
    pub fn new() -> (assembler: FrameAssembler)
        ensures
            assembler@ == Seq::<u8>::empty(),
    {
        FrameAssembler { pending: Vec::new() }
    }

    /// The bytes that wait for the rest of their frame.
    pub fn pending(&self) -> (bytes: &[u8])
        ensures
            bytes@ == self@,
    {
        self.pending.as_slice()
    }

    /// Takes the bytes of one read and gives out every frame that they
    /// complete. Bytes of a frame that is not whole yet are kept for the next
    /// read; after a protocol error the bytes from the malformed header on are
    /// kept, so that every later read reports the error again.
    pub fn feed(&mut self, bytes: &[u8]) -> (out: Decoded)
        ensures
            spec_frames(out.frames@) == spec_drain(old(self)@ + bytes@).frames,
            out.error == spec_drain(old(self)@ + bytes@).error,
            final(self)@ == spec_drain(old(self)@ + bytes@).rest,
    {
        append_bytes(&mut self.pending, bytes);
        let ghost total = self.pending@;
        let n: usize = self.pending.len();
        let mut frames: Vec<Frame> = Vec::new();
        let mut error: Option<ProtocolError> = None;
        let mut at: usize = 0;
        let mut open: bool = true;
        assert(total.skip(0) =~= total);
        assert(spec_frames(frames@) =~= Seq::<FrameView>::empty());
        while open
            invariant
                at <= n == total.len(),
                self.pending@ == total,
                open ==> error is None,
                spec_drain(total).frames == spec_frames(frames@) + if open {
                    spec_drain(total.skip(at as int)).frames
                } else {
                    Seq::<FrameView>::empty()
                },
                spec_drain(total).rest == if open {
                    spec_drain(total.skip(at as int)).rest
                } else {
                    total.skip(at as int)
                },
                spec_drain(total).error == if open {
                    spec_drain(total.skip(at as int)).error
                } else {
                    error
                },
            decreases n - at, (if open { 1int } else { 0int }),
        {
            let tail = slice_subrange(self.pending.as_slice(), at, n);
            assert(tail@ =~= total.skip(at as int));
            match decode(tail) {
                Ok((frame, used)) => {
                    proof {
                        lemma_decode_consumes(tail@);
                        assert(total.skip(at as int).skip(used as int) =~= total.skip(at + used));
                        assert(spec_frames(frames@.push(frame)) =~= spec_frames(frames@)
                            + seq![frame@]);
                    }
                    frames.push(frame);
                    at += used;
                },
                Err(DecodeError::IncompleteData) => {
                    open = false;
                },
                Err(DecodeError::Protocol(e)) => {
                    error = Some(e);
                    open = false;
                },
            }
        }
        let rest = self.pending.split_off(at);
        assert(rest@ =~= total.skip(at as int));
        self.pending = rest;
        Decoded { frames, error }
    }
}

/// Two reads give what one read of the same bytes gives: decoding `first`,
/// then what was left of it followed by `second`, yields the frames, the
/// leftover and the error of decoding `first + second` at once.
pub proof fn lemma_drain_split(first: Seq<u8>, second: Seq<u8>)
    ensures
        spec_drain(first + second).frames == spec_drain(first).frames + spec_drain(
            spec_drain(first).rest + second,
        ).frames,
        spec_drain(first + second).rest == spec_drain(spec_drain(first).rest + second).rest,
        spec_drain(first + second).error == spec_drain(spec_drain(first).rest + second).error,
    decreases first.len(),
{
    match spec_decode(first) {
        Ok((frame, used)) => {
            lemma_decode_consumes(first);
            lemma_decode_stable(first, second);
            let tail = first.skip(used as int);
            lemma_drain_split(tail, second);
            assert((first + second).skip(used as int) =~= tail + second);
            assert(spec_drain(first + second).frames =~= spec_drain(first).frames + spec_drain(
                spec_drain(first).rest + second,
            ).frames);
        },
        Err(DecodeError::IncompleteData) => {
            assert(spec_drain(first).frames + spec_drain(first + second).frames =~= spec_drain(
                first + second,
            ).frames);
        },
        Err(DecodeError::Protocol(e)) => {
            lemma_decode_stable(first, second);
            assert(spec_drain(first).frames + spec_drain(first + second).frames =~= spec_drain(
                first + second,
            ).frames);
        },
    }
}

/// A frame whose bytes arrive cut in two at any place comes out once, whole,
/// after the second read, as it does when its bytes arrive in one read.
pub proof fn lemma_split_read(frame: FrameView, cut: int)
    requires
        frame.rsv == 0,
        frame.payload.len() < spec_length_limit(),
        frame.mask_key matches Some(key) ==> key.len() == 4,
        0 <= cut <= spec_encode(frame).len(),
    ensures
        ({
            let bytes = spec_encode(frame);
            let first = spec_drain(bytes.take(cut));
            let second = spec_drain(first.rest + bytes.skip(cut));
            &&& spec_drain(bytes).frames == seq![frame]
            &&& first.frames + second.frames == seq![frame]
            &&& first.error is None
            &&& second.error is None
            &&& second.rest == Seq::<u8>::empty()
        }),
{
    let bytes = spec_encode(frame);
    let none = Seq::<u8>::empty();
    lemma_decode_encode(frame, none);
    assert(bytes + none =~= bytes);
    assert(bytes.skip(bytes.len() as int) =~= none);
    assert(spec_drain(none).frames =~= Seq::<FrameView>::empty());
    assert(spec_drain(bytes).frames =~= seq![frame]);
    assert(bytes.take(cut) + bytes.skip(cut) =~= bytes);
    lemma_drain_split(bytes.take(cut), bytes.skip(cut));
    if spec_drain(bytes.take(cut)).error is Some {
        lemma_drain_error_stays(bytes.take(cut), bytes.skip(cut));
    }
}

/// A protocol error does not go away: if decoding `first` ends in one, so
/// does decoding what is left of `first` followed by anything.
pub proof fn lemma_drain_error_stays(first: Seq<u8>, second: Seq<u8>)
    requires
        spec_drain(first).error is Some,
    ensures
        spec_drain(spec_drain(first).rest + second).error == spec_drain(first).error,
        spec_drain(spec_drain(first).rest + second).frames == Seq::<FrameView>::empty(),
    decreases first.len(),
{
    match spec_decode(first) {
        Ok((frame, used)) => {
            lemma_decode_consumes(first);
            lemma_drain_error_stays(first.skip(used as int), second);
        },
        Err(DecodeError::IncompleteData) => {},
        Err(DecodeError::Protocol(e)) => {
            lemma_decode_stable(first, second);
        },
    }
}

/// Bytes that begin with a reserved bit set are malformed as soon as two of
/// them are there: no frame comes out and the error is `ReservedBits`.
pub proof fn lemma_reserved_bits_malformed(bytes: Seq<u8>)
    requires
        bytes.len() >= 2,
        bytes[0] & 0x70 != 0,
    ensures
        spec_drain(bytes).error == Some(ProtocolError::ReservedBits),
        spec_drain(bytes).frames == Seq::<FrameView>::empty(),
        spec_drain(bytes).rest == bytes,
{
}

} // verus!
