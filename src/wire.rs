//! The receiver's frame format, as it appears on the wire.
//!
//! A frame is 32 bytes: the length byte `0x20`, the command byte `0x40`,
//! fourteen channel values as little-endian 16-bit pairs, and a 16-bit
//! checksum, low byte first. The checksum is `0xFFFF` minus the sum of the 30
//! bytes before it, modulo 2^16.
use vstd::prelude::*;

verus! {

/// Total length of a frame, in bytes.
pub const PROTOCOL_LENGTH: u8 = 0x20;

/// The only command the receiver sends.
pub const PROTOCOL_COMMAND: u8 = 0x40;

/// Number of channel values in a frame.
pub const PROTOCOL_CHANNELS: usize = 14;

/// Bytes of a frame besides the channel data: length, command, two checksum bytes.
pub const PROTOCOL_OVERHEAD: u8 = 4;

/// Bytes of channel data in a frame.
pub const PAYLOAD_LEN: usize = 28;

/// The sum of a sequence of bytes.
pub open spec fn byte_sum(bytes: Seq<u8>) -> int
    decreases bytes.len(),
{
    if bytes.len() == 0 {
        0
    } else {
        byte_sum(bytes.drop_last()) + bytes.last()
    }
}

/// The checksum of a frame whose bytes before the checksum are `body`.
pub open spec fn checksum_of(body: Seq<u8>) -> int {
    (0xFFFF - byte_sum(body)) % 0x10000
}

/// The bytes of a frame that the checksum covers: header, then channel data.
pub open spec fn frame_body(payload: Seq<u8>) -> Seq<u8> {
    seq![PROTOCOL_LENGTH, PROTOCOL_COMMAND] + payload
}

/// The low byte of the checksum of a frame with this channel data.
pub open spec fn checksum_low(payload: Seq<u8>) -> u8 {
    (checksum_of(frame_body(payload)) % 0x100) as u8
}

/// The high byte of the checksum of a frame with this channel data.
pub open spec fn checksum_high(payload: Seq<u8>) -> u8 {
    (checksum_of(frame_body(payload)) / 0x100) as u8
}

/// Byte `i` of `bytes`, or zero past its end.
pub open spec fn byte_or_zero(bytes: Seq<u8>, i: int) -> int {
    if 0 <= i < bytes.len() {
        bytes[i] as int
    } else {
        0
    }
}

/// The fourteen channel values held by (a prefix of) the channel data: value
/// `k` is bytes `2k` (low) and `2k + 1` (high), a missing byte counting as zero.
pub open spec fn channels_of(payload: Seq<u8>) -> Seq<u16> {
    Seq::new(
        PROTOCOL_CHANNELS as nat,
        |k: int| (byte_or_zero(payload, 2 * k) + 0x100 * byte_or_zero(payload, 2 * k + 1)) as u16,
    )
}

/// The channel data that carries `channels`: each value low byte first.
pub open spec fn payload_of(channels: Seq<u16>) -> Seq<u8> {
    Seq::new(
        2 * channels.len(),
        |i: int|
            if i % 2 == 0 {
                (channels[i / 2] % 0x100) as u8
            } else {
                (channels[i / 2] / 0x100) as u8
            },
    )
}

/// The frame that carries `channels`.
pub open spec fn frame_of(channels: Seq<u16>) -> Seq<u8> {
    let payload = payload_of(channels);
    frame_body(payload) + seq![checksum_low(payload), checksum_high(payload)]
}

/// The channel data of a frame.
pub open spec fn frame_payload(frame: Seq<u8>) -> Seq<u8> {
    frame.subrange(2, 30)
}

/// The channel values of a frame.
pub open spec fn frame_channels(frame: Seq<u8>) -> Seq<u16> {
    channels_of(frame_payload(frame))
}

/// A well-formed frame: 32 bytes, the length byte, the command byte, and a
/// checksum (low byte first) that matches the 30 bytes before it.
pub open spec fn is_valid_frame(frame: Seq<u8>) -> bool {
    &&& frame.len() == PROTOCOL_LENGTH
    &&& frame[0] == PROTOCOL_LENGTH
    &&& frame[1] == PROTOCOL_COMMAND
    &&& frame[30] + 0x100 * frame[31] == checksum_of(frame.subrange(0, 30))
}

/// Appending a byte adds it to the sum.
pub proof fn lemma_byte_sum_push(bytes: Seq<u8>, b: u8)
    ensures
        byte_sum(bytes.push(b)) == byte_sum(bytes) + b,
{
    assert(bytes.push(b).drop_last() =~= bytes);
}

/// The sum of a concatenation is the sum of the parts.
pub proof fn lemma_byte_sum_add(a: Seq<u8>, b: Seq<u8>)
    ensures
        byte_sum(a + b) == byte_sum(a) + byte_sum(b),
    decreases b.len(),
{
    if b.len() == 0 {
        assert(a + b =~= a);
    } else {
        lemma_byte_sum_add(a, b.drop_last());
        assert((a + b).drop_last() =~= a + b.drop_last());
    }
}

/// Each byte adds at most 255 to the sum.
pub proof fn lemma_byte_sum_bounds(bytes: Seq<u8>)
    ensures
        0 <= byte_sum(bytes) <= 0xFF * bytes.len(),
    decreases bytes.len(),
{
    if bytes.len() > 0 {
        lemma_byte_sum_bounds(bytes.drop_last());
    }
}

/// The sum over header and channel data.
pub proof fn lemma_body_sum(payload: Seq<u8>)
    ensures
        byte_sum(frame_body(payload)) == 0x60 + byte_sum(payload),
{
    let header = seq![PROTOCOL_LENGTH, PROTOCOL_COMMAND];
    lemma_byte_sum_add(header, payload);
    lemma_byte_sum_push(seq![PROTOCOL_LENGTH], PROTOCOL_COMMAND);
    lemma_byte_sum_push(Seq::<u8>::empty(), PROTOCOL_LENGTH);
    assert(seq![PROTOCOL_LENGTH] =~= Seq::<u8>::empty().push(PROTOCOL_LENGTH));
    assert(header =~= seq![PROTOCOL_LENGTH].push(PROTOCOL_COMMAND));
}

/// With at most 28 bytes of channel data the checksum needs no wrap-around.
pub proof fn lemma_checksum_no_wrap(payload: Seq<u8>)
    requires
        payload.len() <= PAYLOAD_LEN,
    ensures
        checksum_of(frame_body(payload)) == 0xFFFF - 0x60 - byte_sum(payload),
        0xFFFF - 0x60 - 0xFF * payload.len() <= checksum_of(frame_body(payload)) <= 0xFFFF - 0x60,
{
    lemma_body_sum(payload);
    lemma_byte_sum_bounds(payload);
}

/// Taking one more byte of channel data changes one channel value: a byte at
/// an even place sets the low half of a value that was zero, a byte at an odd
/// place the high half of a value that held only its low half.
pub proof fn lemma_channels_push(payload: Seq<u8>, b: u8)
    requires
        payload.len() < PAYLOAD_LEN,
    ensures
        ({
            let n = payload.len() as int;
            let before = channels_of(payload);
            &&& n % 2 == 0 ==> before[n / 2] == 0
            &&& n % 2 == 1 ==> before[n / 2] < 0x100
            &&& channels_of(payload.push(b)) == before.update(
                n / 2,
                if n % 2 == 0 {
                    b as u16
                } else {
                    (before[n / 2] + 0x100 * b) as u16
                },
            )
        }),
{
    let n = payload.len() as int;
    let pushed = payload.push(b);
    let before = channels_of(payload);
    let after = channels_of(pushed);
    assert forall|k: int| 0 <= k < PROTOCOL_CHANNELS && k != n / 2 implies after[k] == before[k] by {
        assert(byte_or_zero(pushed, 2 * k) == byte_or_zero(payload, 2 * k));
        assert(byte_or_zero(pushed, 2 * k + 1) == byte_or_zero(payload, 2 * k + 1));
    }
    let k = n / 2;
    if n % 2 == 0 {
        assert(2 * k == n);
        assert(byte_or_zero(payload, 2 * k) == 0);
        assert(byte_or_zero(payload, 2 * k + 1) == 0);
        assert(byte_or_zero(pushed, 2 * k) == b);
        assert(byte_or_zero(pushed, 2 * k + 1) == 0);
    } else {
        assert(2 * k + 1 == n);
        assert(byte_or_zero(payload, 2 * k + 1) == 0);
        assert(byte_or_zero(pushed, 2 * k) == byte_or_zero(payload, 2 * k));
        assert(byte_or_zero(pushed, 2 * k + 1) == b);
    }
    assert(after =~= before.update(k, if n % 2 == 0 { b as u16 } else { (before[k] + 0x100 * b) as u16 }));
}

/// The frame that carries `channels`: header, each value low byte first, and
/// the checksum.
pub fn encode_frame(channels: &[u16; 14]) -> (frame: [u8; 32])
    ensures
        frame@ == frame_of(channels@),
{
    let ghost payload = payload_of(channels@);
    let ghost body = frame_body(payload);
    let mut frame: [u8; 32] = [0; 32];
    frame[0] = PROTOCOL_LENGTH;
    frame[1] = PROTOCOL_COMMAND;
    let mut sum: u16 = PROTOCOL_LENGTH as u16 + PROTOCOL_COMMAND as u16;
    proof {
        lemma_byte_sum_push(Seq::<u8>::empty(), PROTOCOL_LENGTH);
        lemma_byte_sum_push(seq![PROTOCOL_LENGTH], PROTOCOL_COMMAND);
        assert(body.take(1) =~= Seq::<u8>::empty().push(PROTOCOL_LENGTH));
        assert(body.take(2) =~= seq![PROTOCOL_LENGTH].push(PROTOCOL_COMMAND));
    }
    let mut k: usize = 0;
    while k < PROTOCOL_CHANNELS
        invariant
            0 <= k <= PROTOCOL_CHANNELS,
            body == frame_body(payload),
            payload == payload_of(channels@),
            body.len() == 30,
            forall|i: int| 0 <= i < 2 + 2 * k ==> frame[i] == body[i],
            sum == byte_sum(body.take(2 + 2 * k)),
            sum <= 0xFF * (2 + 2 * k),
        decreases PROTOCOL_CHANNELS - k,
    {
        let value = channels[k];
        let low = (value & 0xFF) as u8;
        let high = (value >> 8) as u8;
        proof {
            assert(value & 0xFF == value % 0x100) by (bit_vector);
            assert(value >> 8 == value / 0x100) by (bit_vector);
            let at = 2 + 2 * k;
            assert(body[at] == low);
            assert(body[at + 1] == high);
            lemma_byte_sum_push(body.take(at), low);
            lemma_byte_sum_push(body.take(at + 1), high);
            assert(body.take(at + 1) =~= body.take(at).push(low));
            assert(body.take(at + 2) =~= body.take(at + 1).push(high));
        }
        frame[2 + 2 * k] = low;
        frame[3 + 2 * k] = high;
        sum = sum + low as u16 + high as u16;
        k += 1;
    }
    let checksum: u16 = 0xFFFF - sum;
    proof {
        assert(body.take(30) =~= body);
        assert(checksum & 0xFF == checksum % 0x100) by (bit_vector);
        assert(checksum >> 8 == checksum / 0x100) by (bit_vector);
    }
    frame[30] = (checksum & 0xFF) as u8;
    frame[31] = (checksum >> 8) as u8;
    assert(frame@ =~= frame_of(channels@));
    frame
}

} // verus!
