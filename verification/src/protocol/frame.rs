//! Binary frame layout: `[4-byte LE length][1-byte message type][payload]`,
//! where `length = 1 + payload.len()`.
use vstd::prelude::*;

use super::error::ProtocolError;

verus! {

/// Default maximum allowed frame length (256 MiB) to guard against excessive allocation.
pub const DEFAULT_MAX_FRAME_SIZE: usize = 268435456;

/// Little-endian bytes of a 32-bit value.
pub open spec fn le_u32_bytes(x: u32) -> Seq<u8> {
    seq![(x & 0xff) as u8, ((x >> 8) & 0xff) as u8, ((x >> 16) & 0xff) as u8, ((x >> 24) & 0xff) as u8]
}

/// The 32-bit value of four little-endian bytes.
pub open spec fn le_u32_value(b0: u8, b1: u8, b2: u8, b3: u8) -> u32 {
    (b0 as u32) | ((b1 as u32) << 8) | ((b2 as u32) << 16) | ((b3 as u32) << 24)
}

/// The length prefix at the start of `bytes`.
pub open spec fn spec_length_prefix(bytes: Seq<u8>) -> u32
    recommends
        bytes.len() >= 4,
{
    le_u32_value(bytes[0], bytes[1], bytes[2], bytes[3])
}

/// The frame for a message of type `msg_type` whose encoded payload is `payload`.
/// The length field is narrowed to 32 bits.
pub open spec fn spec_frame(msg_type: u8, payload: Seq<u8>) -> Seq<u8> {
    le_u32_bytes((1 + payload.len()) as u32) + seq![msg_type] + payload
}

proof fn lemma_le_u32_roundtrip(x: u32)
    ensures
        le_u32_value(
            le_u32_bytes(x)[0],
            le_u32_bytes(x)[1],
            le_u32_bytes(x)[2],
            le_u32_bytes(x)[3],
        ) == x,
{
    let b0 = (x & 0xff) as u8;
    let b1 = ((x >> 8) & 0xff) as u8;
    let b2 = ((x >> 16) & 0xff) as u8;
    let b3 = ((x >> 24) & 0xff) as u8;
    assert((b0 as u32) | ((b1 as u32) << 8) | ((b2 as u32) << 16) | ((b3 as u32) << 24) == x)
        by (bit_vector)
        requires
            b0 == (x & 0xff) as u8,
            b1 == ((x >> 8) & 0xff) as u8,
            b2 == ((x >> 16) & 0xff) as u8,
            b3 == ((x >> 24) & 0xff) as u8,
    ;
}

fn le_u32_encode(x: u32) -> (b: [u8; 4])
    ensures
        b@ == le_u32_bytes(x),
{
    let b = [
        (x & 0xff) as u8,
        ((x >> 8) & 0xff) as u8,
        ((x >> 16) & 0xff) as u8,
        ((x >> 24) & 0xff) as u8,
    ];
    assert(b@ =~= le_u32_bytes(x));
    b
}

fn le_u32_decode(b0: u8, b1: u8, b2: u8, b3: u8) -> (x: u32)
    ensures
        x == le_u32_value(b0, b1, b2, b3),
{
    (b0 as u32) | ((b1 as u32) << 8) | ((b2 as u32) << 16) | ((b3 as u32) << 24)
}

/// Encodes an already serialized message payload into a binary frame:
/// `[4-byte LE message_length] [1-byte message_type] [N-byte payload]`
/// where `message_length = 1 + payload.len()`.
pub fn encode_frame(msg_type: u8, payload: &[u8]) -> (frame: Vec<u8>)
    requires
        payload@.len() + 5 <= usize::MAX,
    ensures
        frame@ == spec_frame(msg_type, payload@),
{
    let len: usize = payload.len() + 1;
    let prefix = le_u32_encode(#[verifier::truncate] (len as u32));
    let mut out: Vec<u8> = Vec::new();
    out.push(prefix[0]);
    out.push(prefix[1]);
    out.push(prefix[2]);
    out.push(prefix[3]);
    out.push(msg_type);
    let mut i: usize = 0;
    while i < payload.len()
        invariant
            i <= payload@.len(),
            out@ == le_u32_bytes((1 + payload@.len()) as u32) + seq![msg_type] + payload@.take(
                i as int,
            ),
        decreases payload@.len() - i,
    {
        proof {
            assert(payload@.take(i + 1) =~= payload@.take(i as int).push(payload@[i as int]));
        }
        out.push(payload[i]);
        i = i + 1;
    }
    proof {
        assert(payload@.take(payload@.len() as int) =~= payload@);
    }
    out
}

/// The outcome of checking the framing of a complete frame.
pub enum FrameCheck {
    /// A well-formed frame with this type code and payload.
    Valid(u8, Seq<u8>),
    /// Fewer than the five bytes of a header.
    TooShort,
    /// The length field is zero.
    ZeroLength,
    /// The buffer does not hold exactly `4 + length` bytes; the expected size.
    LengthMismatch(nat),
}

/// The framing check of a complete frame buffer.
pub open spec fn spec_check_frame(bytes: Seq<u8>) -> FrameCheck {
    if bytes.len() < 5 {
        FrameCheck::TooShort
    } else if spec_length_prefix(bytes) == 0 {
        FrameCheck::ZeroLength
    } else if bytes.len() != 4 + spec_length_prefix(bytes) {
        FrameCheck::LengthMismatch((4 + spec_length_prefix(bytes)) as nat)
    } else {
        FrameCheck::Valid(bytes[4], bytes.skip(5))
    }
}

/// Checks a complete binary frame and splits it into its message type code and payload bytes.
pub fn decode_frame(bytes: &[u8]) -> (r: Result<(u8, Vec<u8>), ProtocolError>)
    requires
        bytes@.len() < 5 || 4 + spec_length_prefix(bytes@) <= usize::MAX,
    ensures
        match spec_check_frame(bytes@) {
            FrameCheck::Valid(t, p) => r matches Ok((t2, p2)) && t2 == t && p2@ == p,
            FrameCheck::TooShort => r matches Err(ProtocolError::TruncatedFrame { expected, actual })
                && expected == 5 && actual == bytes@.len(),
            FrameCheck::ZeroLength => r matches Err(ProtocolError::DeserializationError(m))
                && m@ == "Invalid frame length: 0"@,
            FrameCheck::LengthMismatch(e) => r matches Err(
                ProtocolError::TruncatedFrame { expected, actual },
            ) && expected == e && actual == bytes@.len(),
        },
{
    if bytes.len() < 5 {
        return Err(ProtocolError::TruncatedFrame { expected: 5, actual: bytes.len() });
    }
    let length_prefix = le_u32_decode(bytes[0], bytes[1], bytes[2], bytes[3]) as usize;
    if length_prefix == 0 {
        return Err(ProtocolError::DeserializationError(zero_length_message()));
    }
    let expected_len = 4 + length_prefix;
    if bytes.len() != expected_len {
        return Err(ProtocolError::TruncatedFrame { expected: expected_len, actual: bytes.len() });
    }
    let msg_type = bytes[4];
    let mut payload: Vec<u8> = Vec::new();
    let mut i: usize = 5;
    while i < bytes.len()
        invariant
            5 <= i <= bytes@.len(),
            payload@ == bytes@.subrange(5, i as int),
        decreases bytes@.len() - i,
    {
        proof {
            assert(bytes@.subrange(5, i + 1) =~= bytes@.subrange(5, i as int).push(bytes@[i as int]));
        }
        payload.push(bytes[i]);
        i = i + 1;
    }
    proof {
        assert(bytes@.subrange(5, bytes@.len() as int) =~= bytes@.skip(5));
    }
    Ok((msg_type, payload))
}

fn zero_length_message() -> (m: String)
    ensures
        m@ == "Invalid frame length: 0"@,
{
    String::from_str("Invalid frame length: 0")
}

/// Decoding an encoded frame gives back the message type and the payload,
/// whenever the frame length fits its 32-bit length field.
pub proof fn lemma_frame_roundtrip(msg_type: u8, payload: Seq<u8>)
    requires
        1 + payload.len() <= u32::MAX,
    ensures
        spec_check_frame(spec_frame(msg_type, payload)) == FrameCheck::Valid(msg_type, payload),
        spec_length_prefix(spec_frame(msg_type, payload)) == 1 + payload.len(),
{
    let f = spec_frame(msg_type, payload);
    let x = (1 + payload.len()) as u32;
    lemma_le_u32_roundtrip(x);
    assert(f[0] == le_u32_bytes(x)[0]);
    assert(f[1] == le_u32_bytes(x)[1]);
    assert(f[2] == le_u32_bytes(x)[2]);
    assert(f[3] == le_u32_bytes(x)[3]);
    assert(f[4] == msg_type);
    assert(f.skip(5) =~= payload);
}

/// What a stream reader should do with the bytes buffered so far.
pub open spec fn spec_pending_frame(buffered: Seq<u8>, max_frame_size: usize) -> FramePending {
    if buffered.len() < 4 {
        FramePending::NeedMore
    } else if spec_length_prefix(buffered) == 0 {
        FramePending::ZeroLength
    } else if spec_length_prefix(buffered) > max_frame_size {
        FramePending::TooLarge(spec_length_prefix(buffered) as nat)
    } else if buffered.len() >= 4 + spec_length_prefix(buffered) {
        FramePending::Complete((4 + spec_length_prefix(buffered)) as nat)
    } else {
        FramePending::NeedMore
    }
}

/// The state of the bytes buffered by a stream reader.
pub enum FramePending {
    /// More bytes are needed before a frame is complete.
    NeedMore,
    /// The leading length field is zero.
    ZeroLength,
    /// The leading length field exceeds the limit; its value.
    TooLarge(nat),
    /// A complete frame of this many bytes is at the front of the buffer.
    Complete(nat),
}

/// Examines the front of a stream reader's buffer: returns the size of the complete
/// frame at its front, `None` when more bytes must be read first, or the framing error.
pub fn next_frame_len(buffered: &[u8], max_frame_size: usize) -> (r: Result<Option<usize>, ProtocolError>)
    requires
        max_frame_size + 4 <= usize::MAX,
    ensures
        match spec_pending_frame(buffered@, max_frame_size) {
            FramePending::NeedMore => r matches Ok(None),
            FramePending::ZeroLength => r matches Err(ProtocolError::DeserializationError(m))
                && m@ == "Invalid frame length: 0"@,
            FramePending::TooLarge(n) => r matches Err(ProtocolError::FrameTooLarge(a, b)) && a
                == n && b == max_frame_size,
            FramePending::Complete(n) => r matches Ok(Some(k)) && k == n,
        },
{
    if buffered.len() >= 4 {
        let length_prefix = le_u32_decode(buffered[0], buffered[1], buffered[2], buffered[3]) as usize;
        if length_prefix == 0 {
            return Err(ProtocolError::DeserializationError(zero_length_message()));
        }
        if length_prefix > max_frame_size {
            return Err(ProtocolError::FrameTooLarge(length_prefix, max_frame_size));
        }
        let total_frame_len = 4 + length_prefix;
        if buffered.len() >= total_frame_len {
            return Ok(Some(total_frame_len));
        }
    }
    Ok(None)
}

/// What a stream reader returns when its source reaches end of stream:
/// a clean end when nothing is buffered, `UnexpectedEof` inside a frame.
pub fn end_of_stream(buffered_len: usize) -> (r: Result<(), ProtocolError>)
    ensures
        buffered_len == 0 <==> r is Ok,
        buffered_len > 0 ==> r matches Err(ProtocolError::UnexpectedEof),
{
    if buffered_len == 0 {
        Ok(())
    } else {
        Err(ProtocolError::UnexpectedEof)
    }
}

/// The frames of a message sequence laid end to end.
pub open spec fn spec_frames(frames: Seq<(u8, Seq<u8>)>) -> Seq<u8>
    decreases frames.len(),
{
    if frames.len() == 0 {
        Seq::empty()
    } else {
        spec_frame(frames[0].0, frames[0].1) + spec_frames(frames.drop_first())
    }
}

/// What a stream reader takes from `buffered`, one frame after another, using
/// `spec_pending_frame` and `spec_check_frame` as `next_frame_len` and
/// `decode_frame` do: the (type, payload) pairs of the complete frames at the
/// front, and the bytes left where it stopped.
pub open spec fn spec_read_frames(buffered: Seq<u8>, max_frame_size: usize) -> (Seq<(u8, Seq<u8>)>, Seq<u8>)
    decreases buffered.len(),
{
    match spec_pending_frame(buffered, max_frame_size) {
        FramePending::Complete(n) => if 0 < n <= buffered.len() {
            match spec_check_frame(buffered.take(n as int)) {
                FrameCheck::Valid(t, p) => {
                    let rest = spec_read_frames(buffered.skip(n as int), max_frame_size);
                    (seq![(t, p)] + rest.0, rest.1)
                },
                _ => (Seq::empty(), buffered),
            }
        } else {
            (Seq::empty(), buffered)
        },
        _ => (Seq::empty(), buffered),
    }
}

proof fn lemma_first_frame(t: u8, p: Seq<u8>, after: Seq<u8>, max_frame_size: usize)
    requires
        1 + p.len() <= u32::MAX,
        1 + p.len() <= max_frame_size,
    ensures
        ({
            let bytes = spec_frame(t, p) + after;
            let n = spec_frame(t, p).len();
            &&& spec_pending_frame(bytes, max_frame_size) == FramePending::Complete(n)
            &&& 0 < n <= bytes.len()
            &&& spec_check_frame(bytes.take(n as int)) == FrameCheck::Valid(t, p)
            &&& bytes.skip(n as int) == after
        }),
{
    lemma_frame_roundtrip(t, p);
    let f = spec_frame(t, p);
    let bytes = f + after;
    assert(bytes[0] == f[0] && bytes[1] == f[1] && bytes[2] == f[2] && bytes[3] == f[3]);
    assert(spec_length_prefix(bytes) == spec_length_prefix(f));
    assert(bytes.take(f.len() as int) =~= f);
    assert(bytes.skip(f.len() as int) =~= after);
}

/// Reading a stream of encoded frames gives the messages back in order: from
/// frames whose lengths are within the limit (and, as every length prefix is
/// 32 bits wide, fit in a `u32`), whatever the limit, followed by any bytes that do not
/// start a complete frame, the reader takes exactly those frames and stops at the
/// trailing bytes (which `end_of_stream` then accepts when empty and refuses
/// otherwise, and `next_frame_len` reports as too large or zero-length when so).
pub proof fn lemma_frame_stream(frames: Seq<(u8, Seq<u8>)>, tail: Seq<u8>, max_frame_size: usize)
    requires
        forall|i: int|
            0 <= i < frames.len() ==> 1 + (#[trigger] frames[i]).1.len() <= max_frame_size && 1
                + frames[i].1.len() <= u32::MAX,
        !(spec_pending_frame(tail, max_frame_size) is Complete),
    ensures
        spec_read_frames(spec_frames(frames) + tail, max_frame_size) == (frames, tail),
    decreases frames.len(),
{
    if frames.len() == 0 {
        assert(spec_frames(frames) + tail =~= tail);
    } else {
        let t = frames[0].0;
        let p = frames[0].1;
        let rest = frames.drop_first();
        assert(1 + frames[0].1.len() <= max_frame_size && 1 + frames[0].1.len() <= u32::MAX);
        assert forall|i: int| 0 <= i < rest.len() implies 1 + (#[trigger] rest[i]).1.len()
            <= max_frame_size && 1 + rest[i].1.len() <= u32::MAX by {
            assert(rest[i] == frames[i + 1]);
        }
        lemma_frame_stream(rest, tail, max_frame_size);
        let after = spec_frames(rest) + tail;
        lemma_first_frame(t, p, after, max_frame_size);
        assert(spec_frames(frames) + tail =~= spec_frame(t, p) + after);
        assert(seq![(t, p)] + rest =~= frames);
    }
}

} // verus!
