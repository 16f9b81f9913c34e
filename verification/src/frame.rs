//! The WebSocket frame codec: base framing without extensions.
//!
//! The wire format is given once, as the spec function [`spec_decode`] on a
//! sequence of bytes; [`decode`] is the executable decoder proved against it and
//! [`Frame::encode`] the encoder, proved against [`spec_encode`]. That the two
//! agree is [`lemma_decode_encode`].

use crate::bytes::append_bytes;
use vstd::prelude::*;
use vstd::slice::{slice_subrange, slice_to_vec};

verus! {

/// The purpose of a frame, a 4-bit field of its first byte.
#[derive(Clone, Copy, Debug, PartialEq, Eq, Structural)]
pub enum Opcode {
    Continuation,
    Text,
    Binary,
    Close,
    Ping,
    Pong,
}

impl Opcode {
    /// The number that stands for the opcode on the wire.
    pub open spec fn spec_code(self) -> u8 {
        match self {
            Opcode::Continuation => 0,
            Opcode::Text => 1,
            Opcode::Binary => 2,
            Opcode::Close => 8,
            Opcode::Ping => 9,
            Opcode::Pong => 10,
        }
    }

    /// The opcode that `code` stands for, if it stands for one.
    pub open spec fn spec_from_code(code: u8) -> Option<Opcode> {
        if code == 0 {
            Some(Opcode::Continuation)
        } else if code == 1 {
            Some(Opcode::Text)
        } else if code == 2 {
            Some(Opcode::Binary)
        } else if code == 8 {
            Some(Opcode::Close)
        } else if code == 9 {
            Some(Opcode::Ping)
        } else if code == 10 {
            Some(Opcode::Pong)
        } else {
            None
        }
    }

    pub fn code(self) -> (code: u8)
        ensures
            code == self.spec_code(),
    {
        match self {
            Opcode::Continuation => 0,
            Opcode::Text => 1,
            Opcode::Binary => 2,
            Opcode::Close => 8,
            Opcode::Ping => 9,
            Opcode::Pong => 10,
        }
    }

    pub fn from_code(code: u8) -> (opcode: Option<Opcode>)
        ensures
            opcode == Opcode::spec_from_code(code),
    {
        match code {
            0 => Some(Opcode::Continuation),
            1 => Some(Opcode::Text),
            2 => Some(Opcode::Binary),
            8 => Some(Opcode::Close),
            9 => Some(Opcode::Ping),
            10 => Some(Opcode::Pong),
            _ => None,
        }
    }
}

/// What makes a frame header malformed. A connection that sends such a header
/// is closed; the decoder does not look for the next frame.
#[derive(Clone, Copy, Debug, PartialEq, Eq, Structural)]
pub enum ProtocolError {
    /// One of the three reserved bits is set.
    ReservedBits,
    /// The opcode field holds a number that stands for no opcode.
    UnknownOpcode,
    /// The 64-bit payload length has its highest bit set.
    LengthOverflow,
}

/// Why no frame came out of the bytes at hand.
#[derive(Clone, Copy, Debug, PartialEq, Eq, Structural)]
pub enum DecodeError {
    /// The bytes are the beginning of a frame and more are needed. This is a
    /// signal to wait, not a failure.
    IncompleteData,
    /// The bytes cannot begin a frame, whatever follows them.
    Protocol(ProtocolError),
}

/// One decoded frame. `payload` holds the bytes after unmasking.
#[derive(Clone, Debug, PartialEq, Eq)]
pub struct Frame {
    pub fin: bool,
    /// The three reserved bits, as a number below 8.
    pub rsv: u8,
    pub opcode: Opcode,
    /// The masking key, where the frame is masked on the wire.
    pub mask_key: Option<[u8; 4]>,
    pub payload: Vec<u8>,
}

/// A frame as a mathematical value.
pub struct FrameView {
    pub fin: bool,
    pub rsv: u8,
    pub opcode: Opcode,
    pub mask_key: Option<Seq<u8>>,
    pub payload: Seq<u8>,
}

impl View for Frame {
    type V = FrameView;

    open spec fn view(&self) -> FrameView {
        FrameView {
            fin: self.fin,
            rsv: self.rsv,
            opcode: self.opcode,
            mask_key: match self.mask_key {
                Some(key) => Some(key@),
                None => None,
            },
            payload: self.payload@,
        }
    }
}

/// The first payload length that the wire format cannot carry.
pub open spec fn spec_length_limit() -> nat {
    0x8000_0000_0000_0000
}

/// The number that `bytes` spell, most significant byte first.
pub open spec fn spec_be_value(bytes: Seq<u8>) -> nat
    decreases bytes.len(),
{
    if bytes.len() == 0 {
        0
    } else {
        spec_be_value(bytes.drop_last()) * 256 + bytes.last() as nat
    }
}

/// `payload` with byte `i` XOR-ed with byte `i mod 4` of `key`. Masking and
/// unmasking are this one operation.
pub open spec fn spec_mask(payload: Seq<u8>, key: Seq<u8>) -> Seq<u8> {
    Seq::new(payload.len(), |i: int| payload[i] ^ key[i % 4])
}

/// How many bytes of extended length follow a 7-bit length field.
pub open spec fn spec_extended_width(len7: u8) -> int {
    if len7 == 126 {
        2
    } else if len7 == 127 {
        8
    } else {
        0
    }
}

/// The wire format: what the beginning of `bytes` decodes to.
///
/// `Ok((frame, n))` says that the first `n` bytes are one whole frame,
/// `Err(IncompleteData)` that `bytes` is too short to tell or to hold the
/// frame it announces, `Err(Protocol(..))` that the header is malformed.
/// Reserved bits and opcode are judged as soon as two bytes are there, the
/// length as soon as the length field is complete.
pub open spec fn spec_decode(bytes: Seq<u8>) -> Result<(FrameView, nat), DecodeError> {
    if bytes.len() < 2 {
        Err(DecodeError::IncompleteData)
    } else if bytes[0] & 0x70 != 0 {
        Err(DecodeError::Protocol(ProtocolError::ReservedBits))
    } else if Opcode::spec_from_code(bytes[0] & 0x0f) is None {
        Err(DecodeError::Protocol(ProtocolError::UnknownOpcode))
    } else {
        let len7 = bytes[1] & 0x7f;
        let masked = bytes[1] & 0x80 != 0;
        let key_at: int = 2 + spec_extended_width(len7);
        if bytes.len() < key_at {
            Err(DecodeError::IncompleteData)
        } else {
            let len: nat = if key_at == 2 {
                len7 as nat
            } else {
                spec_be_value(bytes.subrange(2, key_at))
            };
            let body_at: int = if masked {
                key_at + 4
            } else {
                key_at
            };
            if len >= spec_length_limit() {
                Err(DecodeError::Protocol(ProtocolError::LengthOverflow))
            } else if bytes.len() < body_at + len {
                Err(DecodeError::IncompleteData)
            } else {
                let key = bytes.subrange(key_at, body_at);
                let body = bytes.subrange(body_at, body_at + len);
                Ok(
                    (
                        FrameView {
                            fin: bytes[0] & 0x80 != 0,
                            rsv: 0,
                            opcode: Opcode::spec_from_code(bytes[0] & 0x0f)->Some_0,
                            mask_key: if masked {
                                Some(key)
                            } else {
                                None
                            },
                            payload: if masked {
                                spec_mask(body, key)
                            } else {
                                body
                            },
                        },
                        (body_at + len) as nat,
                    ),
                )
            }
        }
    }
}

/// What a result of [`decode`] stands for.
pub open spec fn spec_decoded(r: Result<(Frame, usize), DecodeError>) -> Result<
    (FrameView, nat),
    DecodeError,
> {
    match r {
        Ok((frame, used)) => Ok((frame@, used as nat)),
        Err(e) => Err(e),
    }
}

/// 256 to the power `n`.
pub open spec fn spec_pow256(n: nat) -> nat
    decreases n,
{
    if n == 0 {
        1
    } else {
        256 * spec_pow256((n - 1) as nat)
    }
}

/// A number spelled with `bytes.len()` bytes is below 256 to that power.
pub proof fn lemma_be_value_bound(bytes: Seq<u8>)
    ensures
        spec_be_value(bytes) < spec_pow256(bytes.len()),
    decreases bytes.len(),
{
    if bytes.len() > 0 {
        lemma_be_value_bound(bytes.drop_last());
    }
}

proof fn lemma_pow256_values()
    ensures
        spec_pow256(0) == 1,
        spec_pow256(1) == 0x100,
        spec_pow256(2) == 0x1_0000,
        spec_pow256(3) == 0x100_0000,
        spec_pow256(4) == 0x1_0000_0000,
        spec_pow256(5) == 0x100_0000_0000,
        spec_pow256(6) == 0x1_0000_0000_0000,
        spec_pow256(7) == 0x100_0000_0000_0000,
        spec_pow256(8) == 0x1_0000_0000_0000_0000,
{
    reveal_with_fuel(spec_pow256, 10);
}

/// Reads `width` bytes of `buf` from `at` on as one big-endian number.
fn read_be(buf: &[u8], at: usize, width: usize) -> (value: u64)
    requires
        width <= 8,
        at + width <= buf.len(),
    ensures
        value == spec_be_value(buf@.subrange(at as int, at + width)),
{
    let mut value: u64 = 0;
    let mut i: usize = 0;
    while i < width
        invariant
            i <= width <= 8,
            at + width <= buf.len(),
            value == spec_be_value(buf@.subrange(at as int, at + i)),
        decreases width - i,
    {
        proof {
            let read = buf@.subrange(at as int, at + i);
            let next = buf@.subrange(at as int, at + i + 1);
            lemma_be_value_bound(read);
            lemma_pow256_values();
            assert(next.drop_last() =~= read);
            assert(next.last() == buf@[at + i]);
        }
        value = value * 256 + buf[at + i] as u64;
        i += 1;
    }
    value
}

/// Decodes the frame that `buf` begins with, and says how many bytes it took.
pub fn decode(buf: &[u8]) -> (r: Result<(Frame, usize), DecodeError>)
    ensures
        spec_decoded(r) == spec_decode(buf@),
{
    if buf.len() < 2 {
        return Err(DecodeError::IncompleteData);
    }
    let b0: u8 = buf[0];
    let b1: u8 = buf[1];
    if b0 & 0x70 != 0 {
        return Err(DecodeError::Protocol(ProtocolError::ReservedBits));
    }
    let opcode = match Opcode::from_code(b0 & 0x0f) {
        Some(opcode) => opcode,
        None => {
            return Err(DecodeError::Protocol(ProtocolError::UnknownOpcode));
        },
    };
    let len7: u8 = b1 & 0x7f;
    let masked = b1 & 0x80 != 0;
    let key_at: usize = if len7 == 126 {
        4
    } else if len7 == 127 {
        10
    } else {
        2
    };
    if buf.len() < key_at {
        return Err(DecodeError::IncompleteData);
    }
    let len: u64 = if key_at == 2 {
        len7 as u64
    } else {
        read_be(buf, 2, key_at - 2)
    };
    if len >= 0x8000_0000_0000_0000 {
        return Err(DecodeError::Protocol(ProtocolError::LengthOverflow));
    }
    let body_at: usize = if masked {
        key_at + 4
    } else {
        key_at
    };
    if (buf.len() as u64) < body_at as u64 + len {
        return Err(DecodeError::IncompleteData);
    }
    let end: usize = body_at + len as usize;
    let mut payload: Vec<u8> = slice_to_vec(slice_subrange(buf, body_at, end));
    let mask_key: Option<[u8; 4]> = if masked {
        let key: [u8; 4] = [buf[key_at], buf[key_at + 1], buf[key_at + 2], buf[key_at + 3]];
        assert(key@ =~= buf@.subrange(key_at as int, body_at as int));
        apply_mask(&mut payload, &key);
        Some(key)
    } else {
        None
    };
    let frame = Frame { fin: b0 & 0x80 != 0, rsv: 0, opcode, mask_key, payload };
    Ok((frame, end))
}

/// XOR-s byte `i` of `payload` with byte `i mod 4` of `key`, in place.
pub fn apply_mask(payload: &mut Vec<u8>, key: &[u8; 4])
    ensures
        final(payload)@ == spec_mask(old(payload)@, key@),
{
    let n: usize = payload.len();
    let mut i: usize = 0;
    while i < n
        invariant
            i <= n,
            payload@.len() == n,
            old(payload)@.len() == n,
            forall|j: int| 0 <= j < i ==> payload@[j] == old(payload)@[j] ^ key@[j % 4],
            forall|j: int| i <= j < n ==> payload@[j] == old(payload)@[j],
        decreases n - i,
    {
        let masked: u8 = payload[i] ^ key[i % 4];
        payload[i] = masked;
        i += 1;
    }
    assert(payload@ =~= spec_mask(old(payload)@, key@));
}

/// The `width` lowest bytes of `value`, most significant first.
pub open spec fn spec_be_bytes(value: nat, width: nat) -> Seq<u8>
    decreases width,
{
    if width == 0 {
        Seq::empty()
    } else {
        spec_be_bytes(value / 256, (width - 1) as nat).push((value % 256) as u8)
    }
}

/// The first byte of a frame: FIN in bit 7, the reserved bits in bits 4 to 6,
/// the opcode in bits 0 to 3.
pub open spec fn spec_first_byte(fin: bool, rsv: u8, opcode: Opcode) -> u8 {
    (if fin {
        0x80u8
    } else {
        0u8
    }) | ((rsv & 0x07) << 4) | opcode.spec_code()
}

/// The length field of a frame with `len` payload bytes, in its shortest form:
/// the 7-bit field alone up to 125, with 16 more bits up to 65535, with 64
/// more bits above. The MASK flag is bit 7 of its first byte.
pub open spec fn spec_encode_length(len: nat, masked: bool) -> Seq<u8> {
    let flag: u8 = if masked {
        0x80
    } else {
        0
    };
    if len <= 125 {
        seq![flag | len as u8]
    } else if len <= 0xffff {
        seq![flag | 126u8] + spec_be_bytes(len, 2)
    } else {
        seq![flag | 127u8] + spec_be_bytes(len, 8)
    }
}

/// The bytes that carry `frame` on the wire.
pub open spec fn spec_encode(frame: FrameView) -> Seq<u8> {
    seq![spec_first_byte(frame.fin, frame.rsv, frame.opcode)] + spec_encode_length(
        frame.payload.len(),
        frame.mask_key is Some,
    ) + (match frame.mask_key {
        Some(key) => key + spec_mask(frame.payload, key),
        None => frame.payload,
    })
}

/// Writes the `width` lowest bytes of `value` behind `out`, most significant
/// first.
fn write_be(out: &mut Vec<u8>, value: u64, width: usize)
    requires
        width <= 8,
    ensures
        final(out)@ == old(out)@ + spec_be_bytes(value as nat, width as nat),
{
    let mut digits: [u8; 8] = [0, 0, 0, 0, 0, 0, 0, 0];
    let mut rest: u64 = value;
    let mut i: usize = 0;
    // digits[8 - i ..] holds the i lowest bytes
    while i < width
        invariant
            i <= width <= 8,
            spec_be_bytes(value as nat, width as nat) == spec_be_bytes(
                rest as nat,
                (width - i) as nat,
            ) + digits@.subrange(8 - i, 8),
        decreases width - i,
    {
        let ghost before = digits@;
        digits[7 - i] = (rest % 256) as u8;
        proof {
            let high = spec_be_bytes(rest as nat / 256, (width - i - 1) as nat);
            assert(digits@.subrange(8 - i - 1, 8) =~= seq![(rest % 256) as u8] + before.subrange(
                8 - i,
                8,
            ));
            assert(spec_be_bytes(rest as nat, (width - i) as nat) + before.subrange(8 - i, 8)
                =~= high + digits@.subrange(8 - i - 1, 8));
        }
        rest = rest / 256;
        i += 1;
    }
    let mut j: usize = 8 - width;
    while j < 8
        invariant
            8 - width <= j <= 8,
            width <= 8,
            out@ == old(out)@ + digits@.subrange(8 - width, j as int),
        decreases 8 - j,
    {
        out.push(digits[j]);
        assert(out@ =~= old(out)@ + digits@.subrange(8 - width, j + 1));
        j += 1;
    }
    assert(spec_be_bytes(rest as nat, 0) =~= Seq::<u8>::empty());
    assert(out@ =~= old(out)@ + spec_be_bytes(value as nat, width as nat));
}

impl Frame {
    /// A final frame with no reserved bit set.
    pub fn new(opcode: Opcode, payload: Vec<u8>, mask_key: Option<[u8; 4]>) -> (frame: Frame)
        ensures
            frame.fin,
            frame.rsv == 0,
            frame.opcode == opcode,
            frame.payload == payload,
            frame.mask_key == mask_key,
    {
        Frame { fin: true, rsv: 0, opcode, mask_key, payload }
    }

    /// The MASK flag: whether the frame travels masked.
    pub fn is_masked(&self) -> (masked: bool)
        ensures
            masked == (self@.mask_key is Some),
    {
        self.mask_key.is_some()
    }

    /// The payload length.
    pub fn payload_len(&self) -> (len: usize)
        ensures
            len == self@.payload.len(),
    {
        self.payload.len()
    }

    /// The bytes that carry the frame on the wire. Of `rsv` the three lowest
    /// bits are written.
    pub fn encode(&self) -> (bytes: Vec<u8>)
        ensures
            bytes@ == spec_encode(self@),
    {
        let fin_bit: u8 = if self.fin {
            0x80
        } else {
            0
        };
        let flag: u8 = if self.mask_key.is_some() {
            0x80
        } else {
            0
        };
        let len: usize = self.payload.len();
        let mut bytes: Vec<u8> = Vec::new();
        bytes.push(fin_bit | ((self.rsv & 0x07) << 4) | self.opcode.code());
        if len <= 125 {
            bytes.push(flag | len as u8);
        } else if len <= 0xffff {
            bytes.push(flag | 126u8);
            write_be(&mut bytes, len as u64, 2);
        } else {
            bytes.push(flag | 127u8);
            write_be(&mut bytes, len as u64, 8);
        }
        let ghost head = bytes@;
        assert(head =~= seq![spec_first_byte(self.fin, self.rsv, self.opcode)]
            + spec_encode_length(len as nat, self.mask_key is Some));
        match self.mask_key {
            Some(key) => {
                let mut body: Vec<u8> = slice_to_vec(self.payload.as_slice());
                apply_mask(&mut body, &key);
                let mut i: usize = 0;
                while i < 4
                    invariant
                        i <= 4,
                        bytes@ == head + key@.subrange(0, i as int),
                    decreases 4 - i,
                {
                    bytes.push(key[i]);
                    assert(bytes@ =~= head + key@.subrange(0, i + 1));
                    i += 1;
                }
                assert(key@.subrange(0, 4) =~= key@);
                append_bytes(&mut bytes, body.as_slice());
                assert(bytes@ =~= spec_encode(self@));
            },
            None => {
                append_bytes(&mut bytes, self.payload.as_slice());
                assert(bytes@ =~= spec_encode(self@));
            },
        }
        bytes
    }
}

/// Masking is its own inverse: masking twice with one key gives the payload
/// back.
pub proof fn lemma_mask_involution(payload: Seq<u8>, key: Seq<u8>)
    ensures
        spec_mask(spec_mask(payload, key), key) == payload,
{
    assert forall|i: int| 0 <= i < payload.len() implies (payload[i] ^ key[i % 4]) ^ key[i % 4]
        == payload[i] by {
        let p: u8 = payload[i];
        let k: u8 = key[i % 4];
        assert((p ^ k) ^ k == p) by (bit_vector);
    }
    assert(spec_mask(spec_mask(payload, key), key) =~= payload);
}

/// A number below 256 to the power `width` is spelled by `width` bytes and
/// read back from them.
pub proof fn lemma_be_roundtrip(value: nat, width: nat)
    requires
        value < spec_pow256(width),
    ensures
        spec_be_bytes(value, width).len() == width,
        spec_be_value(spec_be_bytes(value, width)) == value,
    decreases width,
{
    if width > 0 {
        let bytes = spec_be_bytes(value, width);
        lemma_be_roundtrip(value / 256, (width - 1) as nat);
        assert(bytes.drop_last() =~= spec_be_bytes(value / 256, (width - 1) as nat));
        assert(bytes.last() == (value % 256) as u8);
    }
}

/// `spec_be_bytes` gives as many bytes as it is asked for.
pub proof fn lemma_be_bytes_len(value: nat, width: nat)
    ensures
        spec_be_bytes(value, width).len() == width,
    decreases width,
{
    if width > 0 {
        lemma_be_bytes_len(value / 256, (width - 1) as nat);
    }
}

/// How long the encoding of a frame is: 2 bytes, the extended length, the key,
/// the payload.
pub proof fn lemma_encode_len(frame: FrameView)
    requires
        frame.mask_key matches Some(key) ==> key.len() == 4,
    ensures
        spec_encode(frame).len() == 2 + (if frame.payload.len() <= 125 {
            0int
        } else if frame.payload.len() <= 0xffff {
            2int
        } else {
            8int
        }) + (if frame.mask_key is Some {
            4int
        } else {
            0int
        }) + frame.payload.len(),
{
    lemma_be_bytes_len(frame.payload.len(), 2);
    lemma_be_bytes_len(frame.payload.len(), 8);
}

proof fn lemma_first_byte(fin: bool, code: u8)
    requires
        code <= 15,
    ensures
        ({
            let b0 = (if fin {
                0x80u8
            } else {
                0u8
            }) | ((0u8 & 0x07) << 4) | code;
            &&& b0 & 0x70 == 0
            &&& b0 & 0x0f == code
            &&& (b0 & 0x80 != 0) == fin
        }),
{
    let f: u8 = if fin {
        0x80u8
    } else {
        0u8
    };
    assert((f == 0x80 || f == 0) && code <= 15 ==> {
        let b0 = f | ((0u8 & 0x07) << 4) | code;
        &&& b0 & 0x70 == 0
        &&& b0 & 0x0f == code
        &&& (b0 & 0x80 != 0) == (f == 0x80)
    }) by (bit_vector);
}

proof fn lemma_second_byte(masked: bool, len7: u8)
    requires
        len7 <= 127,
    ensures
        ({
            let b1 = (if masked {
                0x80u8
            } else {
                0u8
            }) | len7;
            &&& b1 & 0x7f == len7
            &&& (b1 & 0x80 != 0) == masked
        }),
{
    let f: u8 = if masked {
        0x80u8
    } else {
        0u8
    };
    assert((f == 0x80 || f == 0) && len7 <= 127 ==> {
        let b1 = f | len7;
        &&& b1 & 0x7f == len7
        &&& (b1 & 0x80 != 0) == (f == 0x80)
    }) by (bit_vector);
}

/// Encoding then decoding gives the frame back: a frame with no reserved bit
/// set and a payload that the length field can carry is decoded from its
/// encoding, whatever bytes follow it, and the decoder takes exactly the
/// bytes of the encoding.
pub proof fn lemma_decode_encode(frame: FrameView, rest: Seq<u8>)
    requires
        frame.rsv == 0,
        frame.payload.len() < spec_length_limit(),
        frame.mask_key matches Some(key) ==> key.len() == 4,
    ensures
        spec_decode(spec_encode(frame) + rest) == Ok::<(FrameView, nat), DecodeError>(
            (frame, spec_encode(frame).len()),
        ),
{
    let encoded = spec_encode(frame);
    let bytes = encoded + rest;
    let len = frame.payload.len();
    let masked = frame.mask_key is Some;
    let code = frame.opcode.spec_code();
    lemma_encode_len(frame);
    lemma_first_byte(frame.fin, code);
    lemma_pow256_values();
    let field = spec_encode_length(len, masked);
    assert(bytes[0] == spec_first_byte(frame.fin, frame.rsv, frame.opcode));
    assert(bytes[1] == field[0]);
    assert(Opcode::spec_from_code(code) == Some(frame.opcode));
    let len7: u8 = if len <= 125 {
        len as u8
    } else if len <= 0xffff {
        126
    } else {
        127
    };
    lemma_second_byte(masked, len7);
    let key_at: int = 2 + spec_extended_width(len7);
    if len > 125 {
        let width: nat = if len <= 0xffff {
            2
        } else {
            8
        };
        lemma_be_roundtrip(len, width);
        assert(bytes.subrange(2, key_at) =~= spec_be_bytes(len, width));
    }
    let body_at: int = if masked {
        key_at + 4
    } else {
        key_at
    };
    assert(encoded.len() == body_at + len);
    let body = bytes.subrange(body_at, body_at + len);
    match frame.mask_key {
        Some(key) => {
            assert(bytes.subrange(key_at, body_at) =~= key);
            assert(body =~= spec_mask(frame.payload, key));
            lemma_mask_involution(frame.payload, key);
        },
        None => {
            assert(body =~= frame.payload);
        },
    }
}

/// Once the decoder has an answer other than "incomplete", more bytes behind
/// do not change it.
pub proof fn lemma_decode_stable(bytes: Seq<u8>, more: Seq<u8>)
    requires
        spec_decode(bytes) != Err::<(FrameView, nat), DecodeError>(DecodeError::IncompleteData),
    ensures
        spec_decode(bytes + more) == spec_decode(bytes),
{
    let all = bytes + more;
    assert(all[0] == bytes[0]);
    assert(all[1] == bytes[1]);
    let len7 = bytes[1] & 0x7f;
    let key_at: int = 2 + spec_extended_width(len7);
    if bytes[0] & 0x70 == 0 && Opcode::spec_from_code(bytes[0] & 0x0f) is Some {
        assert(all.subrange(2, key_at) =~= bytes.subrange(2, key_at));
        if spec_decode(bytes) is Ok {
            let used = spec_decode(bytes)->Ok_0.1 as int;
            let body_at: int = if bytes[1] & 0x80 != 0 {
                key_at + 4
            } else {
                key_at
            };
            assert(all.subrange(body_at, used) =~= bytes.subrange(body_at, used));
            if bytes[1] & 0x80 != 0 {
                assert(all.subrange(key_at, body_at) =~= bytes.subrange(key_at, body_at));
            }
        }
    }
}

/// A decoded frame takes at least its two header bytes and no more than there
/// are.
pub proof fn lemma_decode_consumes(bytes: Seq<u8>)
    requires
        spec_decode(bytes) is Ok,
    ensures
        2 <= spec_decode(bytes)->Ok_0.1 <= bytes.len(),
{
}

} // verus!
